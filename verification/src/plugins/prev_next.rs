//! Previous / next links at the bottom of each page.
//!
//! Pages are ordered by URL (ties keep build order); each page with a
//! neighbour gets a `<nav class="prev-next">` block before its closing
//! `</main>` (or `</body>`, or at the end).
use vstd::prelude::*;
use crate::order::{is_stable_order, stable_order};
use crate::slug::str_views;
use crate::text::{
    chars_of, escape, escape_spec, push_all, push_range, push_str, rfind, rfind_spec,
    lemma_rfind_from_props, string_from, EscapeSet,
};

verus! {

/// What the plugin keeps of each rendered page.
#[derive(Debug, Clone)]
pub struct PageInfo {
    pub url: String,
    pub title: String,
    pub output: String,
}

/// The navigation block for a page's neighbours (each `(url, title)`).
pub open spec fn nav_spec(prev: Option<(Seq<char>, Seq<char>)>, next: Option<(Seq<char>, Seq<char>)>) -> Seq<char> {
    "<nav class=\"prev-next\" aria-label=\"Page navigation\">"@ + match prev {
        Some((u, t)) => "<a class=\"prev\" href=\""@ + escape_spec(u, EscapeSet::Attr)
            + "\"><span class=\"hint\">Previous</span><span class=\"title\">"@ + escape_spec(t, EscapeSet::Html)
            + "</span></a>"@,
        None => "<span class=\"prev disabled\"></span>"@,
    } + match next {
        Some((u, t)) => "<a class=\"next\" href=\""@ + escape_spec(u, EscapeSet::Attr)
            + "\"><span class=\"hint\">Next</span><span class=\"title\">"@ + escape_spec(t, EscapeSet::Html)
            + "</span></a>"@,
        None => "<span class=\"next disabled\"></span>"@,
    } + "</nav>"@
}

pub open spec fn info_view(p: Option<&PageInfo>) -> Option<(Seq<char>, Seq<char>)> {
    match p {
        Some(i) => Some((i.url@, i.title@)),
        None => None,
    }
}

/// Render the prev/next block.
pub fn render_nav(prev: Option<&PageInfo>, next: Option<&PageInfo>) -> (r: String)
    ensures
        r@ == nav_spec(info_view(prev), info_view(next)),
{
    let mut out: Vec<char> = Vec::new();
    push_str(&mut out, "<nav class=\"prev-next\" aria-label=\"Page navigation\">");
    match prev {
        Some(p) => {
            push_str(&mut out, "<a class=\"prev\" href=\"");
            push_all(&mut out, &escape(&chars_of(p.url.as_str()), EscapeSet::Attr));
            push_str(&mut out, "\"><span class=\"hint\">Previous</span><span class=\"title\">");
            push_all(&mut out, &escape(&chars_of(p.title.as_str()), EscapeSet::Html));
            push_str(&mut out, "</span></a>");
        },
        None => push_str(&mut out, "<span class=\"prev disabled\"></span>"),
    }
    match next {
        Some(n) => {
            push_str(&mut out, "<a class=\"next\" href=\"");
            push_all(&mut out, &escape(&chars_of(n.url.as_str()), EscapeSet::Attr));
            push_str(&mut out, "\"><span class=\"hint\">Next</span><span class=\"title\">");
            push_all(&mut out, &escape(&chars_of(n.title.as_str()), EscapeSet::Html));
            push_str(&mut out, "</span></a>");
        },
        None => push_str(&mut out, "<span class=\"next disabled\"></span>"),
    }
    push_str(&mut out, "</nav>");
    assert(out@ =~= nav_spec(info_view(prev), info_view(next)));
    string_from(out)
}

/// `html` with `block` inserted before the last `</main>`, else before the
/// last `</body>`, else appended.
pub open spec fn insert_nav_spec(html: Seq<char>, block: Seq<char>) -> Seq<char> {
    match rfind_spec(html, "</main>"@) {
        Some(i) => html.take(i) + block + html.skip(i),
        None => match rfind_spec(html, "</body>"@) {
            Some(i) => html.take(i) + block + html.skip(i),
            None => html + block,
        },
    }
}

pub fn insert_nav(html: &str, block: &str) -> (r: String)
    ensures
        r@ == insert_nav_spec(html@, block@),
{
    let h = chars_of(html);
    let at = match rfind(&h, &chars_of("</main>")) {
        Some(i) => Some(i),
        None => rfind(&h, &chars_of("</body>")),
    };
    let mut out: Vec<char> = Vec::new();
    match at {
        Some(i) => {
            proof {
                lemma_rfind_from_props(h@, h@.len() - "</main>"@.len(), "</main>"@);
                lemma_rfind_from_props(h@, h@.len() - "</body>"@.len(), "</body>"@);
            }
            push_range(&mut out, &h, 0, i);
            push_str(&mut out, block);
            push_range(&mut out, &h, i, h.len());
            assert(out@ =~= insert_nav_spec(html@, block@));
        },
        None => {
            push_str(&mut out, html);
            push_str(&mut out, block);
            assert(out@ =~= insert_nav_spec(html@, block@));
        },
    }
    string_from(out)
}

/// For position `k` of a sorted order: the page there and its
/// neighbours.
pub open spec fn plan_entry(order: Seq<usize>, k: int) -> (usize, Option<usize>, Option<usize>) {
    (
        order[k],
        if k > 0 { Some(order[k - 1]) } else { None },
        if k + 1 < order.len() { Some(order[k + 1]) } else { None },
    )
}

/// The pages to patch: every page (in URL order) that has a neighbour, with
/// its previous and next page.
pub open spec fn is_nav_plan(urls: Seq<Seq<char>>, plan: Seq<(usize, Option<usize>, Option<usize>)>) -> bool {
    exists|order: Seq<usize>|
        is_stable_order(urls, order) && plan == (if order.len() >= 2 {
            Seq::new(order.len(), |k: int| plan_entry(order, k))
        } else {
            seq![]
        })
}

/// Which page gets which neighbours, by index into `pages`.
pub fn nav_plan(pages: &Vec<PageInfo>) -> (r: Vec<(usize, Option<usize>, Option<usize>)>)
    ensures
        is_nav_plan(Seq::new(pages@.len(), |i: int| pages@[i].url@), r@),
{
    let mut urls: Vec<String> = Vec::new();
    let mut i: usize = 0;
    while i < pages.len()
        invariant
            i <= pages.len(),
            str_views(urls@) == Seq::new(i as nat, |j: int| pages@[j].url@),
        decreases pages.len() - i,
    {
        let u = string_from(chars_of(pages[i].url.as_str()));
        let ghost before = urls@;
        urls.push(u);
        assert(str_views(urls@) =~= str_views(before).push(u@));
        assert(str_views(urls@) =~= Seq::new((i + 1) as nat, |j: int| pages@[j].url@));
        i = i + 1;
    }
    let order = stable_order(&urls);
    let mut plan: Vec<(usize, Option<usize>, Option<usize>)> = Vec::new();
    let n = order.len();
    if n >= 2 {
        let mut k: usize = 0;
        while k < n
            invariant
                k <= n,
                n == order@.len(),
                plan@ == Seq::new(k as nat, |j: int| plan_entry(order@, j)),
            decreases n - k,
        {
            let prev = if k > 0 { Some(order[k - 1]) } else { None };
            let next = if k + 1 < n { Some(order[k + 1]) } else { None };
            plan.push((order[k], prev, next));
            assert(plan@ =~= Seq::new((k + 1) as nat, |j: int| plan_entry(order@, j)));
            k = k + 1;
        }
    }
    proof {
        if n < 2 {
            assert(plan@ =~= Seq::<(usize, Option<usize>, Option<usize>)>::empty());
        }
    }
    assert(str_views(urls@) =~= Seq::new(pages@.len(), |i: int| pages@[i].url@));
    assert(is_nav_plan(str_views(urls@), plan@));
    plan
}


/// The prev/next plugin: the pages seen while rendering, in build order.
pub struct PrevNextPlugin {
    pages: Vec<PageInfo>,
}

impl PrevNextPlugin {
    pub closed spec fn seen(&self) -> Seq<PageInfo> {
        self.pages@
    }

    pub fn new() -> (r: Self)
        ensures
            r.seen().len() == 0,
    {
        PrevNextPlugin { pages: Vec::new() }
    }

    /// Remember a rendered page.
    pub fn record(&mut self, info: PageInfo)
        ensures
            final(self).seen() == old(self).seen().push(info),
    {
        self.pages.push(info);
    }

    /// Hand out the pages seen so far and forget them.
    pub fn take(&mut self) -> (r: Vec<PageInfo>)
        ensures
            r@ == old(self).seen(),
            final(self).seen().len() == 0,
    {
        let mut out: Vec<PageInfo> = Vec::new();
        std::mem::swap(&mut out, &mut self.pages);
        out
    }
}

} // verus!
