//! Heading anchors, so readers can deep-link to sections.
//!
//! The Markdown renderer emits plain `<h2>Some title</h2>`. Each `h2`-`h4`
//! gets a slug `id` and an anchor link inside it, with the slugs the table
//! of contents gives, so anchors and TOC entries agree. `inject_anchors`
//! picks them from the HTML as the TOC picks them from the headings: every
//! heading of any level takes its text's slug in document order, repeats
//! getting `-1`, `-2`, ... (`lemma_inject_anchors_follow_toc`).
//! `inject_anchors_with` takes the TOC's slugs themselves, in order
//! (`lemma_anchors_follow_toc`); the plugin uses it with the page's
//! headings.
use vstd::prelude::*;
use crate::markdown::slug_set;
use crate::slug::{
    free_slug, is_first_free, lemma_first_free_unique, lemma_free_slug_is_free, slugify_spec, str_views,
    string_set, unique_slug,
};
use crate::text::{
    chars_of, find, find_from, lemma_find_from_props, matches_at, matches_at_exec, push_all,
    push_range, push_str, slice, string_from, contains_seq,
};

verus! {

/// The anchor-links plugin.
pub struct AnchorLinksPlugin;

/// Text with tags removed: characters from a `<` through the next `>` are
/// dropped, the flag tells whether a tag is open at the end.
pub open spec fn strip_acc(s: Seq<char>) -> (Seq<char>, bool)
    decreases s.len(),
{
    if s.len() == 0 {
        (seq![], false)
    } else {
        let (o, in_tag) = strip_acc(s.drop_last());
        let c = s.last();
        if c == '<' {
            (o, true)
        } else if c == '>' {
            (o, false)
        } else if !in_tag {
            (o.push(c), in_tag)
        } else {
            (o, in_tag)
        }
    }
}

pub open spec fn strip_tags_spec(s: Seq<char>) -> Seq<char> {
    strip_acc(s).0
}

/// Drop everything between `<` and `>` (inclusive), keeping text.
pub fn strip_tags(s: &Vec<char>) -> (r: Vec<char>)
    ensures
        r@ == strip_tags_spec(s@),
{
    let mut out: Vec<char> = Vec::new();
    let mut in_tag = false;
    let mut i: usize = 0;
    while i < s.len()
        invariant
            i <= s.len(),
            (out@, in_tag) == strip_acc(s@.take(i as int)),
        decreases s.len() - i,
    {
        assert(s@.take(i + 1).drop_last() =~= s@.take(i as int));
        let c = s[i];
        if c == '<' {
            in_tag = true;
        } else if c == '>' {
            in_tag = false;
        } else if !in_tag {
            out.push(c);
        }
        i = i + 1;
    }
    assert(s@.take(s@.len() as int) =~= s@);
    out
}

/// The heading level whose opening tag (`<h2>`, `<h3>` or `<h4>`) starts at
/// `i`, if any.
pub open spec fn heading_at(s: Seq<char>, i: int) -> Option<char> {
    if matches_at(s, i, "<h2>"@) {
        Some('2')
    } else if matches_at(s, i, "<h3>"@) {
        Some('3')
    } else if matches_at(s, i, "<h4>"@) {
        Some('4')
    } else {
        None
    }
}

pub open spec fn close_tag(d: char) -> Seq<char> {
    seq!['<', '/', 'h', d, '>']
}

/// The level digit of the heading whose opening tag (`<h1>` to `<h6>`)
/// starts at `i`, if any.
pub open spec fn any_heading_at(s: Seq<char>, i: int) -> Option<char> {
    if matches_at(s, i, "<h1>"@) {
        Some('1')
    } else if matches_at(s, i, "<h2>"@) {
        Some('2')
    } else if matches_at(s, i, "<h3>"@) {
        Some('3')
    } else if matches_at(s, i, "<h4>"@) {
        Some('4')
    } else if matches_at(s, i, "<h5>"@) {
        Some('5')
    } else if matches_at(s, i, "<h6>"@) {
        Some('6')
    } else {
        None
    }
}

/// The heading levels that get an anchor: 2 to 4.
pub open spec fn is_anchored(d: char) -> bool {
    d == '2' || d == '3' || d == '4'
}

/// One heading rendered with its `id` and anchor.
pub open spec fn anchored(d: char, slug: Seq<char>, inner: Seq<char>) -> Seq<char> {
    seq!['<', 'h', d] + " id=\""@ + slug + "\">"@ + inner
        + "<a class=\"heading-anchor\" href=\"#"@ + slug + "\" aria-label=\"Permalink\">#</a>"@
        + close_tag(d)
}

/// The output for the input from `cur` on, given the slugs used so far.
/// Every complete heading (levels 1 to 6) takes a slug, in document order;
/// those of levels 2 to 4 are written with it, the others are copied.
pub open spec fn anchors_from(s: Seq<char>, cur: int, seen: Set<Seq<char>>) -> Seq<char>
    decreases s.len() - cur,
{
    if cur < 0 || cur >= s.len() {
        seq![]
    } else {
        match any_heading_at(s, cur) {
            Some(d) => match find_from(s, cur + 4, close_tag(d)) {
                Some(e) => {
                    let inner = s.subrange(cur + 4, e);
                    let slug = free_slug(slugify_spec(strip_tags_spec(inner)), seen);
                    proof {
                        lemma_find_from_props(s, cur + 4, close_tag(d));
                    }
                    (if is_anchored(d) {
                        anchored(d, slug, inner)
                    } else {
                        s.subrange(cur, e + 5)
                    }) + anchors_from(s, e + 5, seen.insert(slug))
                },
                None => seq![s[cur]] + anchors_from(s, cur + 1, seen),
            },
            None => seq![s[cur]] + anchors_from(s, cur + 1, seen),
        }
    }
}

fn any_heading_at_exec(s: &Vec<char>, i: usize) -> (r: Option<char>)
    requires
        i <= s.len(),
    ensures
        r == any_heading_at(s@, i as int),
        r is Some ==> i + 4 <= s.len(),
{
    proof {
        reveal_strlit("<h1>");
        reveal_strlit("<h2>");
        reveal_strlit("<h3>");
        reveal_strlit("<h4>");
        reveal_strlit("<h5>");
        reveal_strlit("<h6>");
    }
    if matches_at_exec(s, i, &chars_of("<h1>")) {
        Some('1')
    } else if matches_at_exec(s, i, &chars_of("<h2>")) {
        Some('2')
    } else if matches_at_exec(s, i, &chars_of("<h3>")) {
        Some('3')
    } else if matches_at_exec(s, i, &chars_of("<h4>")) {
        Some('4')
    } else if matches_at_exec(s, i, &chars_of("<h5>")) {
        Some('5')
    } else if matches_at_exec(s, i, &chars_of("<h6>")) {
        Some('6')
    } else {
        None
    }
}

fn heading_at_exec(s: &Vec<char>, i: usize) -> (r: Option<char>)
    requires
        i <= s.len(),
    ensures
        r == heading_at(s@, i as int),
        r is Some ==> i + 4 <= s.len(),
{
    proof {
        reveal_strlit("<h2>");
        reveal_strlit("<h3>");
        reveal_strlit("<h4>");
    }
    if matches_at_exec(s, i, &chars_of("<h2>")) {
        Some('2')
    } else if matches_at_exec(s, i, &chars_of("<h3>")) {
        Some('3')
    } else if matches_at_exec(s, i, &chars_of("<h4>")) {
        Some('4')
    } else {
        None
    }
}

/// Give every `h2`-`h4` heading an `id` and a trailing anchor link. Slugs
/// are taken as the table of contents takes them: every heading, of any
/// level, in document order, gets its text's slug, with `-1`, `-2`, ... on
/// repeats; so the ids are the TOC's slugs when the headings' texts are the
/// TOC's (`lemma_inject_anchors_follow_toc`).
pub fn inject_anchors(html: &str) -> (r: String)
    ensures
        r@ == anchors_from(html@, 0, Set::empty()),
        !contains_seq(html@, "<h"@) ==> r@ == html@,
{
    let s = chars_of(html);
    let mut out: Vec<char> = Vec::new();
    let mut seen: Vec<String> = Vec::new();
    let mut cursor: usize = 0;
    proof {
        assert(str_views(seen@) =~= Seq::<Seq<char>>::empty());
        assert(string_set(seen@) =~= Set::<Seq<char>>::empty());
    }
    while cursor < s.len()
        invariant
            cursor <= s.len(),
            anchors_from(s@, 0, Set::empty()) == out@ + anchors_from(
                s@,
                cursor as int,
                string_set(seen@),
            ),
        decreases s.len() - cursor,
    {
        let ghost o = out@;
        let ghost sn = string_set(seen@);
        let mut handled = false;
        match any_heading_at_exec(&s, cursor) {
            Some(d) => {
                let close = vec!['<', '/', 'h', d, '>'];
                assert(close@ =~= close_tag(d));
                match find(&s, &close, cursor + 4) {
                    Some(e) => {
                        proof {
                            lemma_find_from_props(s@, cursor + 4, close_tag(d));
                        }
                        let inner = slice(&s, cursor + 4, e);
                        let text = string_from(strip_tags(&inner));
                        let slug_s = unique_slug(text.as_str(), &mut seen);
                        let slug = chars_of(slug_s.as_str());
                        if d == '2' || d == '3' || d == '4' {
                            out.push('<');
                            out.push('h');
                            out.push(d);
                            push_str(&mut out, " id=\"");
                            push_all(&mut out, &slug);
                            push_str(&mut out, "\">");
                            push_all(&mut out, &inner);
                            push_str(&mut out, "<a class=\"heading-anchor\" href=\"#");
                            push_all(&mut out, &slug);
                            push_str(&mut out, "\" aria-label=\"Permalink\">#</a>");
                            push_all(&mut out, &close);
                            assert(out@ =~= o + anchored(d, slug@, inner@));
                        } else {
                            push_range(&mut out, &s, cursor, e + 5);
                        }
                        assert(out@ + anchors_from(s@, e + 5, string_set(seen@)) =~= o
                            + anchors_from(s@, cursor as int, sn));
                        cursor = e + 5;
                        handled = true;
                    },
                    None => {},
                }
            },
            None => {},
        }
        if !handled {
            out.push(s[cursor]);
            assert(out@ + anchors_from(s@, cursor + 1, sn) =~= o + anchors_from(
                s@,
                cursor as int,
                sn,
            ));
            cursor = cursor + 1;
        }
    }
    proof {
        if !contains_seq(html@, "<h"@) {
            lemma_plain_copy(s@, 0, Set::empty());
            assert(s@.skip(0) =~= s@);
        }
    }
    string_from(out)
}

/// Without any `<h` in the input, the output is the input.
proof fn lemma_plain_copy(s: Seq<char>, cur: int, seen: Set<Seq<char>>)
    requires
        0 <= cur <= s.len(),
        !contains_seq(s, "<h"@),
    ensures
        anchors_from(s, cur, seen) == s.skip(cur),
    decreases s.len() - cur,
{
    if cur < s.len() {
        reveal_strlit("<h1>");
        reveal_strlit("<h2>");
        reveal_strlit("<h3>");
        reveal_strlit("<h4>");
        reveal_strlit("<h5>");
        reveal_strlit("<h6>");
        reveal_strlit("<h");
        lemma_find_from_props(s, 0, "<h"@);
        if any_heading_at(s, cur) is Some {
            assert(s.subrange(cur, cur + 2) =~= s.subrange(cur, cur + 4).subrange(0, 2));
            assert("<h1>"@.subrange(0, 2) =~= "<h"@);
            assert("<h2>"@.subrange(0, 2) =~= "<h"@);
            assert("<h3>"@.subrange(0, 2) =~= "<h"@);
            assert("<h4>"@.subrange(0, 2) =~= "<h"@);
            assert("<h5>"@.subrange(0, 2) =~= "<h"@);
            assert("<h6>"@.subrange(0, 2) =~= "<h"@);
            assert(matches_at(s, cur, "<h"@));
        }
        lemma_plain_copy(s, cur + 1, seen);
        assert(s.skip(cur) =~= seq![s[cur]] + s.skip(cur + 1));
    } else {
        assert(s.skip(cur) =~= Seq::<char>::empty());
    }
}


/// The ids given to the `h2`-`h4` headings from `cur` on, in order.
pub open spec fn anchor_ids(s: Seq<char>, cur: int, seen: Set<Seq<char>>) -> Seq<Seq<char>>
    decreases s.len() - cur,
{
    if cur < 0 || cur >= s.len() {
        seq![]
    } else {
        match any_heading_at(s, cur) {
            Some(d) => match find_from(s, cur + 4, close_tag(d)) {
                Some(e) => {
                    let slug = free_slug(slugify_spec(strip_tags_spec(s.subrange(cur + 4, e))), seen);
                    proof {
                        lemma_find_from_props(s, cur + 4, close_tag(d));
                    }
                    (if is_anchored(d) {
                        seq![slug]
                    } else {
                        seq![]
                    }) + anchor_ids(s, e + 5, seen.insert(slug))
                },
                None => anchor_ids(s, cur + 1, seen),
            },
            None => anchor_ids(s, cur + 1, seen),
        }
    }
}

proof fn lemma_ids_fresh(s: Seq<char>, cur: int, seen: Set<Seq<char>>)
    requires
        seen.finite(),
    ensures
        anchor_ids(s, cur, seen).no_duplicates(),
        forall|i: int| 0 <= i < anchor_ids(s, cur, seen).len() ==> !seen.contains(#[trigger] anchor_ids(s, cur, seen)[i]),
    decreases s.len() - cur,
{
    if 0 <= cur < s.len() {
        match any_heading_at(s, cur) {
            Some(d) => {
                if cur + 4 <= s.len() {
                    lemma_find_from_props(s, cur + 4, close_tag(d));
                }
                match find_from(s, cur + 4, close_tag(d)) {
                    Some(e) => {
                        let slug = free_slug(slugify_spec(strip_tags_spec(s.subrange(cur + 4, e))), seen);
                        lemma_free_slug_is_free(slugify_spec(strip_tags_spec(s.subrange(cur + 4, e))), seen);
                        lemma_ids_fresh(s, e + 5, seen.insert(slug));
                        let rest = anchor_ids(s, e + 5, seen.insert(slug));
                        let all = anchor_ids(s, cur, seen);
                        if !is_anchored(d) {
                            assert(all =~= rest);
                            assert forall|i: int| 0 <= i < all.len() implies !seen.contains(#[trigger] all[i]) by {
                                assert(!seen.insert(slug).contains(rest[i]));
                            }
                        } else {
                            assert(all == seq![slug] + rest);
                            assert forall|i: int| 0 <= i < all.len() implies !seen.contains(#[trigger] all[i]) by {
                                if i > 0 {
                                    assert(all[i] == rest[i - 1]);
                                    assert(!seen.insert(slug).contains(rest[i - 1]));
                                }
                            }
                            assert forall|i: int, j: int| 0 <= i < all.len() && 0 <= j < all.len() && i != j implies all[i] != all[j] by {
                                if i > 0 && j > 0 {
                                    assert(all[i] == rest[i - 1] && all[j] == rest[j - 1]);
                                } else if i == 0 {
                                    assert(all[j] == rest[j - 1]);
                                    assert(!seen.insert(slug).contains(rest[j - 1]));
                                } else {
                                    assert(all[i] == rest[i - 1]);
                                    assert(!seen.insert(slug).contains(rest[i - 1]));
                                }
                            }
                        }
                    },
                    None => {
                        lemma_ids_fresh(s, cur + 1, seen);
                    },
                }
            },
            None => {
                lemma_ids_fresh(s, cur + 1, seen);
            },
        }
    }
}

/// Within a page, no two headings get the same `id`.
pub proof fn lemma_anchor_ids_unique(html: Seq<char>)
    ensures
        anchor_ids(html, 0, Set::empty()).no_duplicates(),
{
    lemma_ids_fresh(html, 0, Set::empty());
}


/// The slugs the table of contents gives the level 2-4 headings of a
/// page's flat heading list `(level, text, slug)`, in order.
pub open spec fn toc_anchor_slugs(hs: Seq<(u8, String, String)>) -> Seq<Seq<char>>
    decreases hs.len(),
{
    if hs.len() == 0 {
        seq![]
    } else {
        let h = hs.last();
        toc_anchor_slugs(hs.drop_last()) + (if 2 <= h.0 <= 4 { seq![h.2@] } else { seq![] })
    }
}

/// The slugs of the level 2-4 headings, in order.
pub fn anchor_slugs(headings: &[(u8, String, String)]) -> (r: Vec<String>)
    ensures
        str_views(r@) == toc_anchor_slugs(headings@),
{
    let mut out: Vec<String> = Vec::new();
    let mut i: usize = 0;
    while i < headings.len()
        invariant
            i <= headings@.len(),
            str_views(out@) == toc_anchor_slugs(headings@.take(i as int)),
        decreases headings@.len() - i,
    {
        assert(headings@.take(i + 1).drop_last() =~= headings@.take(i as int));
        let lv = headings[i].0;
        if 2 <= lv && lv <= 4 {
            let ghost before = out@;
            let sl = string_from(chars_of(headings[i].2.as_str()));
            out.push(sl);
            assert(str_views(out@) =~= str_views(before).push(sl@));
        }
        assert(str_views(out@) =~= toc_anchor_slugs(headings@.take(i + 1)));
        i = i + 1;
    }
    assert(headings@.take(i as int) =~= headings@);
    out
}

/// The output from `cur` on when the `k`-th `h2`-`h4` heading gets
/// `slugs[k]`; a heading the list has no slug for is left as it is.
pub open spec fn anchors_with(s: Seq<char>, cur: int, slugs: Seq<Seq<char>>, k: int) -> Seq<char>
    decreases s.len() - cur,
{
    if cur < 0 || cur >= s.len() {
        seq![]
    } else {
        match heading_at(s, cur) {
            Some(d) => match find_from(s, cur + 4, close_tag(d)) {
                Some(e) => {
                    proof {
                        lemma_find_from_props(s, cur + 4, close_tag(d));
                    }
                    if 0 <= k < slugs.len() {
                        anchored(d, slugs[k], s.subrange(cur + 4, e)) + anchors_with(s, e + 5, slugs, k + 1)
                    } else {
                        seq![s[cur]] + anchors_with(s, cur + 1, slugs, k)
                    }
                },
                None => seq![s[cur]] + anchors_with(s, cur + 1, slugs, k),
            },
            None => seq![s[cur]] + anchors_with(s, cur + 1, slugs, k),
        }
    }
}

/// The ids `anchors_with` gives from `cur` on, in order.
pub open spec fn ids_with(s: Seq<char>, cur: int, slugs: Seq<Seq<char>>, k: int) -> Seq<Seq<char>>
    decreases s.len() - cur,
{
    if cur < 0 || cur >= s.len() {
        seq![]
    } else {
        match heading_at(s, cur) {
            Some(d) => match find_from(s, cur + 4, close_tag(d)) {
                Some(e) => {
                    proof {
                        lemma_find_from_props(s, cur + 4, close_tag(d));
                    }
                    if 0 <= k < slugs.len() {
                        seq![slugs[k]] + ids_with(s, e + 5, slugs, k + 1)
                    } else {
                        ids_with(s, cur + 1, slugs, k)
                    }
                },
                None => ids_with(s, cur + 1, slugs, k),
            },
            None => ids_with(s, cur + 1, slugs, k),
        }
    }
}

proof fn lemma_ids_with_prefix(s: Seq<char>, cur: int, slugs: Seq<Seq<char>>, k: int)
    requires
        0 <= k <= slugs.len(),
    ensures
        k + ids_with(s, cur, slugs, k).len() <= slugs.len(),
        forall|j: int| 0 <= j < ids_with(s, cur, slugs, k).len() ==> #[trigger] ids_with(s, cur, slugs, k)[j] == slugs[k + j],
    decreases s.len() - cur,
{
    if 0 <= cur < s.len() {
        match heading_at(s, cur) {
            Some(d) => {
                if cur + 4 <= s.len() {
                    lemma_find_from_props(s, cur + 4, close_tag(d));
                }
                match find_from(s, cur + 4, close_tag(d)) {
                    Some(e) => {
                        if k < slugs.len() {
                            lemma_ids_with_prefix(s, e + 5, slugs, k + 1);
                            let rest = ids_with(s, e + 5, slugs, k + 1);
                            let all = ids_with(s, cur, slugs, k);
                            assert(all == seq![slugs[k]] + rest);
                            assert forall|j: int| 0 <= j < all.len() implies #[trigger] all[j] == slugs[k + j] by {
                                if j > 0 {
                                    assert(all[j] == rest[j - 1]);
                                }
                            }
                        } else {
                            lemma_ids_with_prefix(s, cur + 1, slugs, k);
                        }
                    },
                    None => {
                        lemma_ids_with_prefix(s, cur + 1, slugs, k);
                    },
                }
            },
            None => {
                lemma_ids_with_prefix(s, cur + 1, slugs, k);
            },
        }
    }
}

/// The number of complete `h2`-`h4` headings from `cur` on.
pub open spec fn heading_count(s: Seq<char>, cur: int) -> nat
    decreases s.len() - cur,
{
    if cur < 0 || cur >= s.len() {
        0
    } else {
        match heading_at(s, cur) {
            Some(d) => match find_from(s, cur + 4, close_tag(d)) {
                Some(e) => {
                    proof {
                        lemma_find_from_props(s, cur + 4, close_tag(d));
                    }
                    1 + heading_count(s, e + 5)
                },
                None => heading_count(s, cur + 1),
            },
            None => heading_count(s, cur + 1),
        }
    }
}

proof fn lemma_ids_with_all(s: Seq<char>, cur: int, slugs: Seq<Seq<char>>, k: int)
    requires
        0 <= k <= slugs.len(),
        k + heading_count(s, cur) == slugs.len(),
    ensures
        ids_with(s, cur, slugs, k) == slugs.skip(k),
    decreases s.len() - cur,
{
    if 0 <= cur < s.len() {
        match heading_at(s, cur) {
            Some(d) => {
                if cur + 4 <= s.len() {
                    lemma_find_from_props(s, cur + 4, close_tag(d));
                }
                match find_from(s, cur + 4, close_tag(d)) {
                    Some(e) => {
                        lemma_ids_with_all(s, e + 5, slugs, k + 1);
                        assert(seq![slugs[k]] + slugs.skip(k + 1) =~= slugs.skip(k));
                    },
                    None => {
                        lemma_ids_with_all(s, cur + 1, slugs, k);
                    },
                }
            },
            None => {
                lemma_ids_with_all(s, cur + 1, slugs, k);
            },
        }
    } else {
        assert(slugs.skip(k) =~= Seq::<Seq<char>>::empty());
    }
}

/// Anchors follow the table of contents: the `j`-th anchored heading of a
/// page gets the TOC slug of the page's `j`-th level 2-4 heading, and when
/// the HTML has as many `h2`-`h4` headings as the TOC has level 2-4
/// entries, the ids are exactly the TOC's slugs.
pub proof fn lemma_anchors_follow_toc(html: Seq<char>, headings: Seq<(u8, String, String)>)
    ensures
        ids_with(html, 0, toc_anchor_slugs(headings), 0).len() <= toc_anchor_slugs(headings).len(),
        forall|j: int| 0 <= j < ids_with(html, 0, toc_anchor_slugs(headings), 0).len()
            ==> #[trigger] ids_with(html, 0, toc_anchor_slugs(headings), 0)[j] == toc_anchor_slugs(headings)[j],
        heading_count(html, 0) == toc_anchor_slugs(headings).len() ==> ids_with(html, 0, toc_anchor_slugs(headings), 0)
            == toc_anchor_slugs(headings),
{
    let slugs = toc_anchor_slugs(headings);
    lemma_ids_with_prefix(html, 0, slugs, 0);
    if heading_count(html, 0) == slugs.len() {
        lemma_ids_with_all(html, 0, slugs, 0);
        assert(slugs.skip(0) =~= slugs);
    }
}

/// Give the `k`-th `h2`-`h4` heading the id `slugs[k]` and a trailing
/// anchor link; headings past the end of `slugs` stay as they are.
pub fn inject_anchors_with(html: &str, slugs: &Vec<String>) -> (r: String)
    ensures
        r@ == anchors_with(html@, 0, str_views(slugs@), 0),
{
    let s = chars_of(html);
    let ghost sv = str_views(slugs@);
    let mut out: Vec<char> = Vec::new();
    let mut k: usize = 0;
    let mut cursor: usize = 0;
    while cursor < s.len()
        invariant
            cursor <= s.len(),
            k <= slugs.len(),
            sv == str_views(slugs@),
            anchors_with(s@, 0, sv, 0) == out@ + anchors_with(s@, cursor as int, sv, k as int),
        decreases s.len() - cursor,
    {
        let ghost o = out@;
        let mut handled = false;
        match heading_at_exec(&s, cursor) {
            Some(d) => {
                let close = vec!['<', '/', 'h', d, '>'];
                assert(close@ =~= close_tag(d));
                match find(&s, &close, cursor + 4) {
                    Some(e) => {
                        proof {
                            lemma_find_from_props(s@, cursor + 4, close_tag(d));
                        }
                        if k < slugs.len() {
                            let inner = slice(&s, cursor + 4, e);
                            let slug = chars_of(slugs[k].as_str());
                            assert(sv[k as int] == slug@);
                            out.push('<');
                            out.push('h');
                            out.push(d);
                            push_str(&mut out, " id=\"");
                            push_all(&mut out, &slug);
                            push_str(&mut out, "\">");
                            push_all(&mut out, &inner);
                            push_str(&mut out, "<a class=\"heading-anchor\" href=\"#");
                            push_all(&mut out, &slug);
                            push_str(&mut out, "\" aria-label=\"Permalink\">#</a>");
                            push_all(&mut out, &close);
                            assert(out@ =~= o + anchored(d, slug@, inner@));
                            assert(out@ + anchors_with(s@, e + 5, sv, k + 1) =~= o
                                + anchors_with(s@, cursor as int, sv, k as int));
                            cursor = e + 5;
                            k = k + 1;
                            handled = true;
                        }
                    },
                    None => {},
                }
            },
            None => {},
        }
        if !handled {
            out.push(s[cursor]);
            assert(out@ + anchors_with(s@, cursor + 1, sv, k as int) =~= o + anchors_with(
                s@,
                cursor as int,
                sv,
                k as int,
            ));
            cursor = cursor + 1;
        }
    }
    string_from(out)
}

/// The level digit and text of every complete heading (levels 1 to 6) from
/// `cur` on, in the order `inject_anchors` meets them.
pub open spec fn html_headings(s: Seq<char>, cur: int) -> Seq<(char, Seq<char>)>
    decreases s.len() - cur,
{
    if cur < 0 || cur >= s.len() {
        seq![]
    } else {
        match any_heading_at(s, cur) {
            Some(d) => match find_from(s, cur + 4, close_tag(d)) {
                Some(e) => {
                    proof {
                        lemma_find_from_props(s, cur + 4, close_tag(d));
                    }
                    seq![(d, strip_tags_spec(s.subrange(cur + 4, e)))] + html_headings(s, e + 5)
                },
                None => html_headings(s, cur + 1),
            },
            None => html_headings(s, cur + 1),
        }
    }
}

/// The digit a heading level is written with in its tag.
pub open spec fn level_digit(level: u8) -> char {
    if level == 1 {
        '1'
    } else if level == 2 {
        '2'
    } else if level == 3 {
        '3'
    } else if level == 4 {
        '4'
    } else if level == 5 {
        '5'
    } else if level == 6 {
        '6'
    } else {
        '0'
    }
}

/// The level digit and text of each entry of a heading list.
pub open spec fn toc_heads(hs: Seq<(u8, String, String)>) -> Seq<(char, Seq<char>)> {
    hs.map_values(|h: (u8, String, String)| (level_digit(h.0), h.1@))
}

/// The slugs of a heading list were picked as the table of contents picks
/// them: each is the first free variant of its text's slug among the
/// earlier ones (what `markdown::parse` states of its headings).
pub open spec fn toc_slugs_ok(hs: Seq<(u8, String, String)>) -> bool {
    forall|k: int| 0 <= k < hs.len() ==> is_first_free(slugify_spec((#[trigger] hs[k]).1@), slug_set(hs, k), hs[k].2@)
}

/// The slugs of the level 2-4 entries from the `k`-th on.
pub open spec fn toc_slugs_from(hs: Seq<(u8, String, String)>, k: int) -> Seq<Seq<char>>
    decreases hs.len() - k,
{
    if k < 0 || k >= hs.len() {
        seq![]
    } else {
        (if 2 <= hs[k].0 <= 4 {
            seq![hs[k].2@]
        } else {
            seq![]
        }) + toc_slugs_from(hs, k + 1)
    }
}

proof fn lemma_toc_slugs_from(hs: Seq<(u8, String, String)>, n: int)
    requires
        0 <= n <= hs.len(),
    ensures
        toc_anchor_slugs(hs.take(n)) + toc_slugs_from(hs, n) == toc_anchor_slugs(hs),
    decreases hs.len() - n,
{
    if n == hs.len() {
        assert(hs.take(n) =~= hs);
        assert(toc_anchor_slugs(hs) + Seq::<Seq<char>>::empty() =~= toc_anchor_slugs(hs));
    } else {
        lemma_toc_slugs_from(hs, n + 1);
        assert(hs.take(n + 1).drop_last() =~= hs.take(n));
        assert(hs.take(n + 1).last() == hs[n]);
        let piece = if 2 <= hs[n].0 <= 4 { seq![hs[n].2@] } else { Seq::<Seq<char>>::empty() };
        assert(toc_anchor_slugs(hs.take(n + 1)) == toc_anchor_slugs(hs.take(n)) + piece);
        assert(toc_anchor_slugs(hs.take(n)) + toc_slugs_from(hs, n) =~= toc_anchor_slugs(hs.take(n + 1))
            + toc_slugs_from(hs, n + 1));
    }
}

proof fn lemma_slug_set_step(hs: Seq<(u8, String, String)>, k: int)
    requires
        0 <= k < hs.len(),
    ensures
        slug_set(hs, k + 1) == slug_set(hs, k).insert(hs[k].2@),
{
    let a = hs.take(k).map_values(|h: (u8, String, String)| h.2@);
    let b = hs.take(k + 1).map_values(|h: (u8, String, String)| h.2@);
    assert(b =~= a.push(hs[k].2@));
    Seq::<Seq<char>>::lemma_to_set_insert_commutes(a, hs[k].2@);
    assert(a + seq![hs[k].2@] =~= a.push(hs[k].2@));
}

proof fn lemma_ids_from_toc(s: Seq<char>, cur: int, hs: Seq<(u8, String, String)>, k: int)
    requires
        0 <= k <= hs.len(),
        toc_slugs_ok(hs),
        html_headings(s, cur) == toc_heads(hs).skip(k),
    ensures
        anchor_ids(s, cur, slug_set(hs, k)) == toc_slugs_from(hs, k),
    decreases s.len() - cur,
{
    let t = toc_heads(hs);
    if 0 <= cur < s.len() {
        match any_heading_at(s, cur) {
            Some(d) => {
                if cur + 4 <= s.len() {
                    lemma_find_from_props(s, cur + 4, close_tag(d));
                }
                match find_from(s, cur + 4, close_tag(d)) {
                    Some(e) => {
                        let txt = strip_tags_spec(s.subrange(cur + 4, e));
                        let rest = html_headings(s, e + 5);
                        assert(html_headings(s, cur) == seq![(d, txt)] + rest);
                        assert(t.skip(k).len() > 0);
                        assert(t.skip(k)[0] == t[k]);
                        assert(t[k] == (d, txt));
                        assert(rest =~= t.skip(k + 1)) by {
                            assert(t.skip(k + 1) =~= t.skip(k).skip(1));
                            assert((seq![(d, txt)] + rest).skip(1) =~= rest);
                        }
                        assert(is_first_free(slugify_spec(hs[k].1@), slug_set(hs, k), hs[k].2@));
                        lemma_first_free_unique(slugify_spec(hs[k].1@), slug_set(hs, k), hs[k].2@);
                        lemma_slug_set_step(hs, k);
                        lemma_ids_from_toc(s, e + 5, hs, k + 1);
                        let l = hs[k].0;
                        assert(is_anchored(d) <==> 2 <= l <= 4);
                    },
                    None => {
                        lemma_ids_from_toc(s, cur + 1, hs, k);
                    },
                }
            },
            None => {
                lemma_ids_from_toc(s, cur + 1, hs, k);
            },
        }
    } else {
        assert(t.skip(k).len() == 0);
    }
}

/// Anchors follow the table of contents: when a page's headings, read from
/// its HTML in order, have the levels and texts of the TOC's heading list,
/// and the TOC's slugs were picked as `markdown::parse` picks them,
/// `inject_anchors` gives the `h2`-`h4` headings exactly the TOC's slugs
/// of the level 2-4 entries, in order.
pub proof fn lemma_inject_anchors_follow_toc(html: Seq<char>, hs: Seq<(u8, String, String)>)
    requires
        toc_slugs_ok(hs),
        html_headings(html, 0) == toc_heads(hs),
    ensures
        anchor_ids(html, 0, Set::empty()) == toc_anchor_slugs(hs),
{
    assert(toc_heads(hs).skip(0) =~= toc_heads(hs));
    assert(slug_set(hs, 0) =~= Set::<Seq<char>>::empty()) by {
        assert(hs.take(0).map_values(|h: (u8, String, String)| h.2@) =~= Seq::<Seq<char>>::empty());
    }
    lemma_ids_from_toc(html, 0, hs, 0);
    lemma_toc_slugs_from(hs, 0);
    assert(hs.take(0) =~= Seq::<(u8, String, String)>::empty());
    assert(toc_anchor_slugs(hs.take(0)) =~= Seq::<Seq<char>>::empty());
    assert(Seq::<Seq<char>>::empty() + toc_slugs_from(hs, 0) =~= toc_slugs_from(hs, 0));
}

} // verus!
