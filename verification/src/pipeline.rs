//! The decisions of the build pipeline that do not touch the disk: a
//! page's title and layout, and the hashes that decide whether a cached
//! page can be reused.
use vstd::prelude::*;
use vstd::string::StringSliceAdditionalSpecFns;
use crate::config::Config;
use crate::order::{
    is_pair_order, lemma_pair_order_sorted, lemma_sorted_pairs_unique, pair_order, pair_seq, pairs_at,
    sorted_pairs,
};
use crate::page::Page;
use crate::slug::str_views;
use crate::frontmatter::{table_get_str, toml_strs};
use crate::hash::{sha256_of, Hasher};
use crate::text::{chars_of, string_from};
use crate::url::{file_name_of, file_name_spec, stem_and_ext, stem_ext};

verus! {

/// The file stem of a source path, or `untitled`.
pub open spec fn stem_or_untitled(relative: Seq<char>) -> Seq<char> {
    match file_name_spec(relative) {
        Some(n) => stem_ext(n).0,
        None => "untitled"@,
    }
}

fn stem_or_untitled_exec(relative: &str) -> (r: String)
    ensures
        r@ == stem_or_untitled(relative@),
{
    match file_name_of(&chars_of(relative)) {
        Some(n) => {
            let (s, _e) = stem_and_ext(&n);
            string_from(s)
        },
        None => string_from(chars_of("untitled")),
    }
}

pub open spec fn fm_str(fm: toml::Table, key: Seq<char>) -> Option<Seq<char>> {
    if toml_strs(fm).contains_key(key) {
        Some(toml_strs(fm)[key])
    } else {
        None
    }
}

/// The title plugins see before the page is rendered: frontmatter
/// `title`, else the file stem.
pub open spec fn title_guess_spec(fm: toml::Table, relative: Seq<char>) -> Seq<char> {
    match fm_str(fm, "title"@) {
        Some(t) => t,
        None => stem_or_untitled(relative),
    }
}

pub fn title_guess(fm: &toml::Table, relative: &str) -> (r: String)
    ensures
        r@ == title_guess_spec(*fm, relative@),
{
    match table_get_str(fm, "title") {
        Some(t) => t,
        None => stem_or_untitled_exec(relative),
    }
}

/// A page's title: frontmatter `title`, else its first `h1`, else the file
/// stem.
pub open spec fn page_title_spec(fm: toml::Table, h1: Option<Seq<char>>, relative: Seq<char>) -> Seq<char> {
    match fm_str(fm, "title"@) {
        Some(t) => t,
        None => match h1 {
            Some(h) => h,
            None => stem_or_untitled(relative),
        },
    }
}

pub fn page_title(fm: &toml::Table, h1: Option<String>, relative: &str) -> (r: String)
    ensures
        r@ == page_title_spec(*fm, match h1 {
            Some(h) => Some(h@),
            None => None,
        }, relative@),
{
    match table_get_str(fm, "title") {
        Some(t) => t,
        None => match h1 {
            Some(h) => h,
            None => stem_or_untitled_exec(relative),
        },
    }
}

/// A page's template: frontmatter `layout`, else `default`.
pub open spec fn layout_spec(fm: toml::Table) -> Seq<char> {
    match fm_str(fm, "layout"@) {
        Some(l) => l,
        None => "default"@,
    }
}

pub fn page_layout(fm: &toml::Table) -> (r: String)
    ensures
        r@ == layout_spec(*fm),
{
    match table_get_str(fm, "layout") {
        Some(l) => l,
        None => string_from(chars_of("default")),
    }
}

/// The bytes a page's render node hashes: the `render-page` tag, then the
/// page's url, title and body, then the theme and navigation summaries.
pub open spec fn render_feed(url: Seq<u8>, title: Seq<u8>, body: Seq<u8>, theme_summary: Seq<u8>, nav_summary: Seq<u8>) -> Seq<u8> {
    Seq::<u8>::empty() + "render-page".spec_bytes() + seq![0u8] + url + title + body + theme_summary + nav_summary
}

/// The input hash of a page's render node.
pub fn render_input_hash(url: &str, title: &str, body: &str, theme_summary: &[u8], nav_summary: &[u8]) -> (r: crate::hash::Hash)
    ensures
        r.0@ == sha256_of(render_feed(url.spec_bytes(), title.spec_bytes(), body.spec_bytes(), theme_summary@, nav_summary@)),
{
    Hasher::new()
        .tag("render-page")
        .update(url.as_bytes())
        .update(title.as_bytes())
        .update(body.as_bytes())
        .update(theme_summary)
        .update(nav_summary)
        .finish()
}

fn opt_bytes(o: &Option<String>) -> (r: &[u8])
    ensures
        r@ == opt_spec_bytes(*o),
{
    match o {
        Some(s) => s.as_str().as_bytes(),
        None => {
            let e: &[u8] = &[];
            assert(e@ =~= Seq::<u8>::empty());
            e
        },
    }
}

/// The UTF-8 bytes of an optional string, none for `None`.
pub open spec fn opt_spec_bytes(o: Option<String>) -> Seq<u8> {
    match o {
        Some(s) => vstd::utf8::encode_utf8(s@),
        None => seq![],
    }
}

/// The theme-related settings every page depends on, hashed (a change to
/// any of them invalidates every cached page).
pub fn theme_summary_bytes(config: &Config) -> (r: Vec<u8>)
    ensures
        r@ == sha256_of(Seq::<u8>::empty() + "theme".spec_bytes() + seq![0u8] + vstd::utf8::encode_utf8(config.site_name@)
            + opt_spec_bytes(config.site_url) + vstd::utf8::encode_utf8(config.theme.name@)
            + opt_spec_bytes(config.theme.palette) + opt_spec_bytes(config.theme.primary)
            + opt_spec_bytes(config.theme.accent)),
{
    let h = Hasher::new()
        .tag("theme")
        .update(config.site_name.as_str().as_bytes())
        .update(opt_bytes(&config.site_url))
        .update(config.theme.name.as_str().as_bytes())
        .update(opt_bytes(&config.theme.palette))
        .update(opt_bytes(&config.theme.primary))
        .update(opt_bytes(&config.theme.accent))
        .finish();
    let mut out: Vec<u8> = Vec::new();
    let mut i: usize = 0;
    while i < 32
        invariant
            i <= 32,
            h.0@.len() == 32,
            out@ == h.0@.take(i as int),
        decreases 32 - i,
    {
        out.push(h.0[i]);
        i = i + 1;
        assert(out@ =~= h.0@.take(i as int));
    }
    assert(h.0@.take(32) =~= h.0@);
    out
}


/// The urls of pages, in order.
pub open spec fn page_urls(pages: Seq<Page>) -> Seq<Seq<char>> {
    pages.map_values(|p: Page| p.url@)
}

/// The titles of pages, in order.
pub open spec fn page_titles(pages: Seq<Page>) -> Seq<Seq<char>> {
    pages.map_values(|p: Page| p.title@)
}

/// `url|title\n` for each pair, one after another.
pub open spec fn feed_pairs(ps: Seq<(Seq<char>, Seq<char>)>) -> Seq<u8>
    decreases ps.len(),
{
    if ps.len() == 0 {
        seq![]
    } else {
        let p = ps.last();
        feed_pairs(ps.drop_last()) + vstd::utf8::encode_utf8(p.0) + seq![124u8]
            + vstd::utf8::encode_utf8(p.1) + seq![10u8]
    }
}

/// The `(url, title)` pairs of `ps`, in ascending order (the one ascending
/// list with the same pairs: see `lemma_sorted_pairs_unique`).
pub open spec fn ascending(ps: Seq<(Seq<char>, Seq<char>)>) -> Seq<(Seq<char>, Seq<char>)> {
    choose|sp: Seq<(Seq<char>, Seq<char>)>| sorted_pairs(sp) && sp.to_multiset() == ps.to_multiset()
}

/// The navigation summary of pages: the digest of their `(url, title)`
/// pairs in ascending order.
pub open spec fn nav_summary_spec(pages: Seq<Page>) -> Seq<u8> {
    sha256_of(
        Seq::<u8>::empty() + "nav".spec_bytes() + seq![0u8]
            + feed_pairs(ascending(pair_seq(page_urls(pages), page_titles(pages)))),
    )
}

/// Pages with the same `(url, title)` pairs, in whatever order they come,
/// have the same navigation summary.
pub proof fn lemma_nav_summary_order_free(p1: Seq<Page>, p2: Seq<Page>)
    requires
        pair_seq(page_urls(p1), page_titles(p1)).to_multiset()
            == pair_seq(page_urls(p2), page_titles(p2)).to_multiset(),
    ensures
        nav_summary_spec(p1) == nav_summary_spec(p2),
{
}

proof fn lemma_feed_prefix(us: Seq<Seq<char>>, ts: Seq<Seq<char>>, order: Seq<usize>, k: int)
    requires
        0 <= k < order.len(),
    ensures
        feed_pairs(pairs_at(us, ts, order.take(k + 1))) == feed_pairs(pairs_at(us, ts, order.take(k)))
            + vstd::utf8::encode_utf8(us[order[k] as int]) + seq![124u8]
            + vstd::utf8::encode_utf8(ts[order[k] as int]) + seq![10u8],
{
    let a = pairs_at(us, ts, order.take(k + 1));
    assert(a.drop_last() =~= pairs_at(us, ts, order.take(k)));
    assert(a.last() == (us[order[k] as int], ts[order[k] as int]));
}

/// The site-wide navigation every page shows, hashed: the `(url, title)`
/// pairs of all pages, sorted, so that renaming or adding a page
/// invalidates every cached page while the order pages are found in does
/// not matter.
pub fn nav_summary_bytes(pages: &[Page]) -> (r: Vec<u8>)
    ensures
        r@ == nav_summary_spec(pages@),
{
    let mut us: Vec<String> = Vec::new();
    let mut ts: Vec<String> = Vec::new();
    let mut i: usize = 0;
    while i < pages.len()
        invariant
            i <= pages@.len(),
            us@.len() == i,
            ts@.len() == i,
            str_views(us@) == page_urls(pages@).take(i as int),
            str_views(ts@) == page_titles(pages@).take(i as int),
        decreases pages@.len() - i,
    {
        let u = string_from(chars_of(pages[i].url.as_str()));
        let t = string_from(chars_of(pages[i].title.as_str()));
        let ghost (bu, bt) = (us@, ts@);
        us.push(u);
        ts.push(t);
        assert(us@ == bu.push(u) && ts@ == bt.push(t));
        assert(str_views(bu) == page_urls(pages@).take(i as int));
        assert forall|j: int| 0 <= j < i + 1 implies #[trigger] str_views(us@)[j] == page_urls(pages@).take(i + 1)[j]
            && str_views(ts@)[j] == page_titles(pages@).take(i + 1)[j] by {
            if j < i {
                assert(str_views(bu)[j] == page_urls(pages@).take(i as int)[j]);
                assert(str_views(bt)[j] == page_titles(pages@).take(i as int)[j]);
            }
        }
        assert(str_views(us@) =~= page_urls(pages@).take(i + 1));
        assert(str_views(ts@) =~= page_titles(pages@).take(i + 1));
        i = i + 1;
    }
    assert(page_urls(pages@).take(i as int) =~= page_urls(pages@));
    assert(page_titles(pages@).take(i as int) =~= page_titles(pages@));
    let order = pair_order(&us, &ts);
    let ghost uv = page_urls(pages@);
    let ghost tv = page_titles(pages@);
    let bar: [u8; 1] = [124u8];
    let nl: [u8; 1] = [10u8];
    assert(bar@ =~= seq![124u8]);
    assert(nl@ =~= seq![10u8]);
    let mut h = Hasher::new().tag("nav");
    let ghost start = h.fed();
    let mut k: usize = 0;
    while k < order.len()
        invariant
            k <= order@.len(),
            is_pair_order(uv, tv, order@),
            uv == str_views(us@),
            tv == str_views(ts@),
            us@.len() == ts@.len(),
            bar@ == seq![124u8],
            nl@ == seq![10u8],
            h.fed() == start + feed_pairs(pairs_at(uv, tv, order@.take(k as int))),
        decreases order@.len() - k,
    {
        let idx = order[k];
        assert(order@[k as int] < uv.len());
        assert(uv.len() == us@.len() && tv.len() == ts@.len());
        proof {
            lemma_feed_prefix(uv, tv, order@, k as int);
        }
        assert(uv[idx as int] == us@[idx as int]@);
        assert(tv[idx as int] == ts@[idx as int]@);
        h = h.update(us[idx].as_str().as_bytes()).update(&bar).update(ts[idx].as_str().as_bytes()).update(&nl);
        k = k + 1;
        assert(h.fed() =~= start + feed_pairs(pairs_at(uv, tv, order@.take(k as int))));
    }
    assert(order@.take(k as int) =~= order@);
    proof {
        let ps = pair_seq(uv, tv);
        let sp = pairs_at(uv, tv, order@);
        lemma_pair_order_sorted(uv, tv, order@);
        assert(sorted_pairs(sp) && sp.to_multiset() == ps.to_multiset());
        let chosen = ascending(ps);
        assert(sorted_pairs(chosen) && chosen.to_multiset() == ps.to_multiset());
        lemma_sorted_pairs_unique(chosen, sp);
    }
    let d = h.finish();
    let mut out: Vec<u8> = Vec::new();
    let mut j: usize = 0;
    while j < 32
        invariant
            j <= 32,
            d.0@.len() == 32,
            out@ == d.0@.take(j as int),
        decreases 32 - j,
    {
        out.push(d.0[j]);
        j = j + 1;
        assert(out@ =~= d.0@.take(j as int));
    }
    assert(d.0@.take(32) =~= d.0@);
    out
}


/// For a page with the same url and title, the bytes its render node
/// hashes change whenever its body, the theme summary or the navigation
/// summary change (summaries being digests of one length): equal inputs
/// mean all three are unchanged.
pub proof fn lemma_render_inputs_separate(
    url: Seq<u8>,
    title: Seq<u8>,
    b1: Seq<u8>,
    b2: Seq<u8>,
    ts1: Seq<u8>,
    ts2: Seq<u8>,
    ns1: Seq<u8>,
    ns2: Seq<u8>,
)
    requires
        ts1.len() == ts2.len(),
        ns1.len() == ns2.len(),
        render_feed(url, title, b1, ts1, ns1) == render_feed(url, title, b2, ts2, ns2),
    ensures
        b1 == b2,
        ts1 == ts2,
        ns1 == ns2,
{
    let pre = Seq::<u8>::empty() + "render-page".spec_bytes() + seq![0u8] + url + title;
    let f1 = render_feed(url, title, b1, ts1, ns1);
    let f2 = render_feed(url, title, b2, ts2, ns2);
    assert(f1 =~= pre + b1 + ts1 + ns1);
    assert(f2 =~= pre + b2 + ts2 + ns2);
    assert(b1.len() == b2.len());
    let p = pre.len() as int;
    assert forall|i: int| 0 <= i < b1.len() implies b1[i] == b2[i] by {
        assert(f1[p + i] == b1[i]);
        assert(f2[p + i] == b2[i]);
    }
    assert(b1 =~= b2);
    let q = p + b1.len();
    assert forall|i: int| 0 <= i < ts1.len() implies ts1[i] == ts2[i] by {
        assert(f1[q + i] == ts1[i]);
        assert(f2[q + i] == ts2[i]);
    }
    assert(ts1 =~= ts2);
    let r = q + ts1.len();
    assert forall|i: int| 0 <= i < ns1.len() implies ns1[i] == ns2[i] by {
        assert(f1[r + i] == ns1[i]);
        assert(f2[r + i] == ns2[i]);
    }
    assert(ns1 =~= ns2);
}

} // verus!
