//! Internal link resolution in rendered HTML.
use vstd::prelude::*;
use crate::text::{
    chars_of, find, find_from, lemma_find_from_props, matches_at, matches_at_exec, push_all,
    push_str, replace_all, replace_spec, slice, string_from, views,
};
use crate::url::{
    classify_link, extension_of, is_external, is_md_ext, path_part, resolve_internal,
    resolve_path_spec, split_anchor, LinkKind,
};
use crate::text::starts_with;

verus! {

/// A rewrite applied to the HTML of a page: `old_href -> new_href`.
#[derive(Debug, Clone)]
pub struct LinkRewrite {
    pub from: String,
    pub to: String,
}

/// A link that could not be resolved to an existing page.
#[derive(Debug, Clone)]
pub struct BrokenLink {
    pub page: String,
    pub href: String,
    pub reason: &'static str,
}

/// The contents of every `href="..."` in `s[i..]`, scanning left to
/// right; a match needs at least one character after `href="`.
pub open spec fn hrefs_from(s: Seq<char>, i: int) -> Seq<Seq<char>>
    decreases s.len() - i,
{
    if i < 0 || i + 6 >= s.len() {
        seq![]
    } else if matches_at(s, i, "href=\""@) {
        match find_from(s, i + 6, seq!['"']) {
            Some(e) => {
                proof {
                    lemma_find_from_props(s, i + 6, seq!['"']);
                }
                if e >= i {
                    seq![s.subrange(i + 6, e)] + hrefs_from(s, e + 1)
                } else {
                    seq![]
                }
            },
            None => hrefs_from(s, i + 1),
        }
    } else {
        hrefs_from(s, i + 1)
    }
}

/// Extract the contents of every `href="..."` attribute in a small-HTML string.
fn extract_hrefs(html: &Vec<char>) -> (r: Vec<Vec<char>>)
    ensures
        views(r@) == hrefs_from(html@, 0),
{
    let needle = chars_of("href=\"");
    proof {
        reveal_strlit("href=\"");
    }
    let quote = chars_of("\"");
    proof {
        reveal_strlit("\"");
    }
    assert(quote@ =~= seq!['"']);
    let mut out: Vec<Vec<char>> = Vec::new();
    let mut i: usize = 0;
    while i < html.len() && needle.len() < html.len() - i
        invariant
            needle@ == "href=\""@,
            needle@.len() == 6,
            quote@ == seq!['"'],
            i <= html.len(),
            hrefs_from(html@, 0) == views(out@) + hrefs_from(html@, i as int),
        decreases html.len() - i,
    {
        if matches_at_exec(html, i, &needle) {
            let start = i + needle.len();
            match find(html, &quote, start) {
                Some(e) => {
                    proof {
                        lemma_find_from_props(html@, start as int, quote@);
                    }
                    let h = slice(html, start, e);
                    let ghost before = out@;
                    out.push(h);
                    assert(views(out@) =~= views(before).push(h@));
                    assert(views(out@) + hrefs_from(html@, e + 1) =~= views(before) + (seq![h@]
                        + hrefs_from(html@, e + 1)));
                    i = e + 1;
                    continue ;
                },
                None => {},
            }
        }
        i = i + 1;
    }
    assert(hrefs_from(html@, i as int) =~= Seq::<Seq<char>>::empty());
    assert(views(out@) =~= views(out@) + hrefs_from(html@, i as int));
    out
}

/// The url a map of known pages gives a key: the first pair with that key.
pub open spec fn lookup(known: Seq<(String, String)>, key: Seq<char>) -> Option<Seq<char>>
    decreases known.len(),
{
    if known.len() == 0 {
        None
    } else if known[0].0@ == key {
        Some(known[0].1@)
    } else {
        lookup(known.drop_first(), key)
    }
}

fn lookup_exec(known: &[(String, String)], key: &Vec<char>) -> (r: Option<Vec<char>>)
    ensures
        match r {
            Some(u) => lookup(known@, key@) == Some(u@),
            None => lookup(known@, key@) is None,
        },
{
    let mut i: usize = 0;
    assert(known@.skip(0) =~= known@);
    while i < known.len()
        invariant
            i <= known@.len(),
            lookup(known@, key@) == lookup(known@.skip(i as int), key@),
        decreases known@.len() - i,
    {
        let k = chars_of(known[i].0.as_str());
        assert(known@.skip(i as int)[0] == known@[i as int]);
        assert(known@.skip(i as int).drop_first() =~= known@.skip(i + 1));
        if crate::text::eq_vec(&k, key) {
            return Some(chars_of(known[i].1.as_str()));
        }
        i = i + 1;
    }
    None
}

/// The entries stand for a map: no key occurs twice.
pub open spec fn keys_unique<V>(entries: Seq<(String, V)>) -> bool {
    forall|i: int, j: int| 0 <= i < j < entries.len() ==> entries[i].0@ != entries[j].0@
}

/// Record `value` under `key`, as inserting into a map does: the entry with
/// that key gets the new value, or a new entry is added at the end. Keys
/// stay unique.
pub fn set_entry<V>(entries: &mut Vec<(String, V)>, key: String, value: V)
    requires
        keys_unique(old(entries)@),
    ensures
        keys_unique(final(entries)@),
        match position_of(old(entries)@, key@) {
            Some(i) => final(entries)@.len() == old(entries)@.len() && final(entries)@[i].0@ == key@
                && final(entries)@[i].1 == value && forall|j: int|
                0 <= j < old(entries)@.len() && j != i ==> final(entries)@[j] == old(entries)@[j],
            None => final(entries)@ == old(entries)@.push((key, value)),
        },
{
    let k = chars_of(key.as_str());
    let mut i: usize = 0;
    while i < entries.len()
        invariant
            i <= entries@.len(),
            k@ == key@,
            forall|j: int| 0 <= j < i ==> entries@[j].0@ != key@,
            entries@ == old(entries)@,
            keys_unique(old(entries)@),
        decreases entries@.len() - i,
    {
        let e = chars_of(entries[i].0.as_str());
        if crate::text::eq_vec(&e, &k) {
            proof {
                lemma_position_of_first(old(entries)@, key@, i as int);
            }
            let ghost before = entries@;
            entries.set(i, (key, value));
            proof {
                assert forall|a: int, b: int| 0 <= a < b < entries@.len() implies entries@[a].0@ != entries@[b].0@ by {
                    assert(entries@[a].0@ == before[a].0@);
                    assert(entries@[b].0@ == before[b].0@);
                }
            }
            return;
        }
        i = i + 1;
    }
    proof {
        lemma_position_of_none(old(entries)@, key@);
    }
    let ghost before = entries@;
    entries.push((key, value));
    proof {
        assert forall|a: int, b: int| 0 <= a < b < entries@.len() implies entries@[a].0@ != entries@[b].0@ by {
            assert(entries@[a] == before[a]);
            if b < before.len() {
                assert(entries@[b] == before[b]);
            }
        }
    }
}

/// The index of the entry with key `key`, if any (the first one).
pub open spec fn position_of<V>(entries: Seq<(String, V)>, key: Seq<char>) -> Option<int> {
    if exists|i: int| 0 <= i < entries.len() && #[trigger] entries[i].0@ == key {
        Some(choose|i: int| 0 <= i < entries.len() && #[trigger] entries[i].0@ == key && forall|j: int| 0 <= j < i ==> entries[j].0@ != key)
    } else {
        None
    }
}

proof fn lemma_position_of_first<V>(entries: Seq<(String, V)>, key: Seq<char>, i: int)
    requires
        0 <= i < entries.len(),
        entries[i].0@ == key,
        forall|j: int| 0 <= j < i ==> entries[j].0@ != key,
    ensures
        position_of(entries, key) == Some(i),
{
    assert(0 <= i < entries.len() && entries[i].0@ == key && forall|j: int| 0 <= j < i ==> entries[j].0@ != key);
    let p = choose|p: int| 0 <= p < entries.len() && #[trigger] entries[p].0@ == key && forall|j: int| 0 <= j < p ==> entries[j].0@ != key;
    if p < i {
        assert(entries[p].0@ != key);
    } else if i < p {
        assert(entries[i].0@ != key);
    }
}

proof fn lemma_position_of_none<V>(entries: Seq<(String, V)>, key: Seq<char>)
    requires
        forall|j: int| 0 <= j < entries.len() ==> entries[j].0@ != key,
    ensures
        position_of(entries, key) is None,
{
}

/// With unique keys, looking a page up gives the URL stored under its
/// path.
pub proof fn lemma_lookup_unique(known: Seq<(String, String)>, i: int)
    requires
        keys_unique(known),
        0 <= i < known.len(),
    ensures
        lookup(known, known[i].0@) == Some(known[i].1@),
    decreases i,
{
    if i > 0 {
        let rest = known.drop_first();
        assert forall|a: int, b: int| 0 <= a < b < rest.len() implies rest[a].0@ != rest[b].0@ by {
            assert(rest[a] == known[a + 1]);
            assert(rest[b] == known[b + 1]);
        }
        assert(known[0].0@ != known[i].0@);
        assert(rest[i - 1] == known[i]);
        lemma_lookup_unique(rest, i - 1);
    }
}

/// A link to another markdown page.
pub open spec fn is_internal_md(h: Seq<char>) -> bool {
    !starts_with(h, "#"@) && !is_external(h) && is_md_ext(extension_of(path_part(h)))
}

/// What becomes of one href of a page: `None` when it is not an internal
/// markdown link, else the rewritten target or `Err` when no page matches.
pub open spec fn link_outcome(page: Seq<char>, h: Seq<char>, known: Seq<(String, String)>) -> Option<
    Result<Seq<char>, ()>,
> {
    if !is_internal_md(h) {
        None
    } else {
        let (pp, anchor) = split_anchor(h);
        match lookup(known, resolve_path_spec(page, pp)) {
            Some(url) => Some(
                Ok(
                    match anchor {
                        Some(a) => url + seq!['#'] + a,
                        None => url,
                    },
                ),
            ),
            None => Some(Err(())),
        }
    }
}

/// The `(from, to)` rewrites for a list of hrefs.
pub open spec fn rewrites_spec(page: Seq<char>, hs: Seq<Seq<char>>, known: Seq<(String, String)>) -> Seq<
    (Seq<char>, Seq<char>),
>
    decreases hs.len(),
{
    if hs.len() == 0 {
        seq![]
    } else {
        let r = rewrites_spec(page, hs.drop_last(), known);
        match link_outcome(page, hs.last(), known) {
            Some(Ok(to)) => r.push((hs.last(), to)),
            _ => r,
        }
    }
}

/// The hrefs of a list that point at no known page.
pub open spec fn broken_spec(page: Seq<char>, hs: Seq<Seq<char>>, known: Seq<(String, String)>) -> Seq<
    Seq<char>,
>
    decreases hs.len(),
{
    if hs.len() == 0 {
        seq![]
    } else {
        let r = broken_spec(page, hs.drop_last(), known);
        match link_outcome(page, hs.last(), known) {
            Some(Err(_)) => r.push(hs.last()),
            _ => r,
        }
    }
}

pub open spec fn rewrite_views(v: Seq<LinkRewrite>) -> Seq<(Seq<char>, Seq<char>)> {
    v.map_values(|r: LinkRewrite| (r.from@, r.to@))
}

pub open spec fn broken_hrefs(v: Seq<BrokenLink>) -> Seq<Seq<char>> {
    v.map_values(|b: BrokenLink| b.href@)
}

/// Resolve all markdown links found in `html` against a map of known pages
/// (`relative_md_path -> site_url`). Returns rewrites to apply plus a list of
/// broken links for reporting.
pub fn resolve_in_html(page_relative: &str, html: &str, known_pages: &[(String, String)]) -> (r: (
    Vec<LinkRewrite>,
    Vec<BrokenLink>,
))
    ensures
        rewrite_views(r.0@) == rewrites_spec(page_relative@, hrefs_from(html@, 0), known_pages@),
        broken_hrefs(r.1@) == broken_spec(page_relative@, hrefs_from(html@, 0), known_pages@),
        forall|k: int|
            0 <= k < r.1@.len() ==> (#[trigger] r.1@[k]).page@ == page_relative@ && r.1@[k].reason
                == "no such page",
{
    let h = chars_of(html);
    let hrefs = extract_hrefs(&h);
    let ghost hs = views(hrefs@);
    let mut rewrites: Vec<LinkRewrite> = Vec::new();
    let mut broken: Vec<BrokenLink> = Vec::new();
    let mut i: usize = 0;
    while i < hrefs.len()
        invariant
            i <= hrefs.len(),
            hs == views(hrefs@),
            rewrite_views(rewrites@) == rewrites_spec(page_relative@, hs.take(i as int), known_pages@),
            broken_hrefs(broken@) == broken_spec(page_relative@, hs.take(i as int), known_pages@),
            forall|k: int|
                0 <= k < broken@.len() ==> (#[trigger] broken@[k]).page@ == page_relative@
                    && broken@[k].reason == "no such page",
        decreases hrefs.len() - i,
    {
        let href = string_from(slice(&hrefs[i], 0, hrefs[i].len()));
        assert(href@ =~= hs[i as int]);
        assert(hs.take(i + 1).drop_last() =~= hs.take(i as int));
        assert(hs.take(i + 1).last() == hs[i as int]);
        let ghost rw0 = rewrites@;
        let ghost br0 = broken@;
        match classify_link(href.as_str()) {
            LinkKind::InternalMarkdown(_) => {
                match resolve_internal(page_relative, href.as_str()) {
                    Some((target, anchor)) => {
                        let t = chars_of(target.as_str());
                        match lookup_exec(known_pages, &t) {
                            Some(url) => {
                                let mut new_href = url;
                                match anchor {
                                    Some(a) => {
                                        let ghost u0 = new_href@;
                                        new_href.push('#');
                                        let av = chars_of(a.as_str());
                                        push_all(&mut new_href, &av);
                                        assert(new_href@ =~= u0 + seq!['#'] + a@);
                                    },
                                    None => {},
                                }
                                let ghost nh = new_href@;
                                let rw = LinkRewrite { from: href, to: string_from(new_href) };
                                assert(link_outcome(page_relative@, hs[i as int], known_pages@)
                                    == Some(Ok::<Seq<char>, ()>(nh)));
                                rewrites.push(rw);
                                assert(rewrite_views(rewrites@) =~= rewrite_views(rw0).push(
                                    (rw.from@, rw.to@),
                                ));
                            },
                            None => {
                                let b = BrokenLink {
                                    page: string_from(chars_of(page_relative)),
                                    href,
                                    reason: "no such page",
                                };
                                assert(link_outcome(page_relative@, hs[i as int], known_pages@)
                                    == Some(Err::<Seq<char>, ()>(())));
                                broken.push(b);
                                assert(broken_hrefs(broken@) =~= broken_hrefs(br0).push(b.href@));
                            },
                        }
                    },
                    None => {},
                }
            },
            _ => {
                assert(link_outcome(page_relative@, hs[i as int], known_pages@) is None);
            },
        }
        i = i + 1;
    }
    assert(hs.take(hs.len() as int) =~= hs);
    (rewrites, broken)
}

/// `href="x"` for a link target `x`.
pub open spec fn href_attr(x: Seq<char>) -> Seq<char> {
    "href=\""@ + x + "\""@
}

/// Every rewrite applied in order, each replacing all `href="from"` by
/// `href="to"`.
pub open spec fn apply_spec(html: Seq<char>, rs: Seq<(Seq<char>, Seq<char>)>) -> Seq<char>
    decreases rs.len(),
{
    if rs.len() == 0 {
        html
    } else {
        let (from, to) = rs.last();
        replace_spec(apply_spec(html, rs.drop_last()), href_attr(from), href_attr(to))
    }
}

fn href_of(x: &String) -> (r: Vec<char>)
    ensures
        r@ == href_attr(x@),
{
    let mut v: Vec<char> = Vec::new();
    push_str(&mut v, "href=\"");
    push_str(&mut v, x.as_str());
    push_str(&mut v, "\"");
    assert(v@ =~= href_attr(x@));
    v
}

/// Apply rewrites to HTML. Simple string replace is correct here because each
/// `from` is the exact original href emitted by the markdown renderer in
/// `href="..."`.
pub fn apply_rewrites(html: &str, rewrites: &[LinkRewrite]) -> (r: String)
    ensures
        r@ == apply_spec(html@, rewrite_views(rewrites@)),
{
    let mut out = chars_of(html);
    let mut i: usize = 0;
    proof {
        reveal_strlit("href=\"");
    }
    while i < rewrites.len()
        invariant
            i <= rewrites@.len(),
            "href=\""@.len() == 6,
            out@ == apply_spec(html@, rewrite_views(rewrites@).take(i as int)),
        decreases rewrites@.len() - i,
    {
        let old_pat = href_of(&rewrites[i].from);
        let new_pat = href_of(&rewrites[i].to);
        out = replace_all(&out, &old_pat, &new_pat);
        assert(rewrite_views(rewrites@).take(i + 1).drop_last() =~= rewrite_views(rewrites@).take(
            i as int,
        ));
        i = i + 1;
    }
    assert(rewrite_views(rewrites@).take(rewrites@.len() as int) =~= rewrite_views(rewrites@));
    string_from(out)
}

} // verus!
