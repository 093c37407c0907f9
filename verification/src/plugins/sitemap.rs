//! `sitemap.xml` and `robots.txt` for the built site.
use vstd::prelude::*;
use crate::slug::str_views;
use crate::text::{chars_of, push_str, string_from, trim_end_spec, trim_end_vec, push_all, CharClass};

verus! {

/// The sitemap plugin: the URLs of the pages rendered so far.
pub struct SitemapPlugin {
    seen: Vec<String>,
}

impl SitemapPlugin {
    pub closed spec fn urls(&self) -> Seq<String> {
        self.seen@
    }

    pub fn new() -> (r: Self)
        ensures
            r.urls().len() == 0,
    {
        SitemapPlugin { seen: Vec::new() }
    }

    /// Remember a rendered page's URL.
    pub fn record(&mut self, url: String)
        ensures
            final(self).urls() == old(self).urls().push(url),
    {
        self.seen.push(url);
    }

    /// Hand out the URLs seen so far and forget them.
    pub fn take(&mut self) -> (r: Vec<String>)
        ensures
            r@ == old(self).urls(),
            final(self).urls().len() == 0,
    {
        let mut out: Vec<String> = Vec::new();
        std::mem::swap(&mut out, &mut self.seen);
        out
    }

    pub fn name_str() -> (r: &'static str)
        ensures
            r@ == "sitemap"@,
    {
        "sitemap"
    }
}

/// One `<url>` entry per page URL, prefixed by the site URL.
pub open spec fn url_entries(base: Seq<char>, urls: Seq<Seq<char>>) -> Seq<char>
    decreases urls.len(),
{
    if urls.len() == 0 {
        seq![]
    } else {
        url_entries(base, urls.drop_last()) + "  <url><loc>"@ + trim_end_spec(base, CharClass::Ch('/'))
            + urls.last() + "</loc></url>\n"@
    }
}

pub open spec fn sitemap_spec(base: Seq<char>, urls: Seq<Seq<char>>) -> Seq<char> {
    "<?xml version=\"1.0\" encoding=\"UTF-8\"?>\n"@
        + "<urlset xmlns=\"http://www.sitemaps.org/schemas/sitemap/0.9\">\n"@ + url_entries(base, urls)
        + "</urlset>\n"@
}

/// The sitemap listing `urls` under `site_url` (empty when unset).
pub fn sitemap_xml(site_url: Option<&str>, urls: &Vec<String>) -> (r: String)
    ensures
        r@ == sitemap_spec(
            match site_url {
                Some(u) => u@,
                None => seq![],
            },
            str_views(urls@),
        ),
{
    let base = match site_url {
        Some(u) => chars_of(u),
        None => Vec::new(),
    };
    let ghost b = base@;
    let trimmed = trim_end_vec(&base, CharClass::Ch('/'));
    let mut out: Vec<char> = Vec::new();
    push_str(&mut out, "<?xml version=\"1.0\" encoding=\"UTF-8\"?>\n");
    push_str(&mut out, "<urlset xmlns=\"http://www.sitemaps.org/schemas/sitemap/0.9\">\n");
    let ghost pre = out@;
    let mut i: usize = 0;
    while i < urls.len()
        invariant
            i <= urls.len(),
            trimmed@ == trim_end_spec(b, CharClass::Ch('/')),
            out@ == pre + url_entries(b, str_views(urls@).take(i as int)),
        decreases urls.len() - i,
    {
        assert(str_views(urls@).take(i + 1).drop_last() =~= str_views(urls@).take(i as int));
        assert(str_views(urls@).take(i + 1).last() == urls@[i as int]@);
        let ghost o = out@;
        push_str(&mut out, "  <url><loc>");
        push_all(&mut out, &trimmed);
        push_str(&mut out, urls[i].as_str());
        push_str(&mut out, "</loc></url>\n");
        assert(out@ =~= pre + url_entries(b, str_views(urls@).take(i + 1)));
        i = i + 1;
    }
    assert(str_views(urls@).take(urls@.len() as int) =~= str_views(urls@));
    push_str(&mut out, "</urlset>\n");
    assert(out@ =~= sitemap_spec(b, str_views(urls@)));
    proof {
        if site_url is None {
            assert(b =~= Seq::<char>::empty());
        }
    }
    string_from(out)
}

pub open spec fn robots_spec(site_url: Option<Seq<char>>) -> Seq<char> {
    "User-agent: *\nAllow: /\n"@ + match site_url {
        Some(u) => "Sitemap: "@ + trim_end_spec(u, CharClass::Ch('/')) + "/sitemap.xml\n"@,
        None => seq![],
    }
}

/// `robots.txt`: allow everything, and name the sitemap when the site URL
/// is known.
pub fn robots_txt(site_url: Option<&str>) -> (r: String)
    ensures
        r@ == robots_spec(
            match site_url {
                Some(u) => Some(u@),
                None => None,
            },
        ),
{
    let mut out: Vec<char> = Vec::new();
    push_str(&mut out, "User-agent: *\nAllow: /\n");
    match site_url {
        Some(u) => {
            push_str(&mut out, "Sitemap: ");
            let t = trim_end_vec(&chars_of(u), CharClass::Ch('/'));
            push_all(&mut out, &t);
            push_str(&mut out, "/sitemap.xml\n");
        },
        None => {},
    }
    assert(out@ =~= robots_spec(
        match site_url {
            Some(u) => Some(u@),
            None => None,
        },
    ));
    string_from(out)
}

} // verus!
