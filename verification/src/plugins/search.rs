//! The plain text of rendered pages, for the search index.
//!
//! Each rendered page's text is collected at HTML time; the index itself
//! is built at the end of the build (see `crate::search`).
use vstd::prelude::*;
use crate::plugins::anchor_links::{strip_tags, strip_tags_spec};
use crate::search::SearchEntry;
use crate::text::{
    ascii_lower_seq, chars_of, find, find_from, is_whitespace, is_ws, lemma_find_from_props,
    push_range, replace_spec, replace_str, slice, string_from, to_ascii_lower, trim_end_spec,
    trim_end_vec, CharClass,
};

verus! {

/// The first of `<script` / `<style` at or after `cur` in `low`, with the
/// tag that closes it.
pub open spec fn next_scripted(low: Seq<char>, cur: int) -> Option<(int, Seq<char>)> {
    match (find_from(low, cur, "<script"@), find_from(low, cur, "<style"@)) {
        (Some(a), Some(b)) => if a <= b {
            Some((a, "</script>"@))
        } else {
            Some((b, "</style>"@))
        },
        (Some(a), None) => Some((a, "</script>"@)),
        (None, Some(b)) => Some((b, "</style>"@)),
        (None, None) => None,
    }
}

/// The text from `cur` on with `<script>` / `<style>` blocks dropped; a
/// block that is never closed drops the rest.
pub open spec fn unscripted_from(s: Seq<char>, low: Seq<char>, cur: int) -> Seq<char>
    decreases s.len() - cur,
{
    if cur < 0 || cur >= s.len() || low.len() != s.len() {
        seq![]
    } else {
        match next_scripted(low, cur) {
            None => s.skip(cur),
            Some((start, end_tag)) => {
                proof {
                    lemma_find_from_props(low, cur, "<script"@);
                    lemma_find_from_props(low, cur, "<style"@);
                }
                let before = s.subrange(cur, start);
                match find_from(low, start + 1, end_tag) {
                    Some(i) => {
                        proof {
                            reveal_strlit("</script>");
                            reveal_strlit("</style>");
                            if start + 1 <= low.len() {
                                lemma_find_from_props(low, start + 1, end_tag);
                            }
                        }
                        before + unscripted_from(s, low, i + end_tag.len())
                    },
                    None => before,
                }
            },
        }
    }
}

pub open spec fn drop_scripted_spec(html: Seq<char>) -> Seq<char> {
    unscripted_from(html, ascii_lower_seq(html), 0)
}

/// Remove `<script>...</script>` and `<style>...</style>` blocks,
/// matching the tags in any ASCII case.
pub fn drop_scripted(html: &str) -> (r: String)
    ensures
        r@ == drop_scripted_spec(html@),
{
    let s = chars_of(html);
    let low = to_ascii_lower(&s);
    let script = chars_of("<script");
    let style = chars_of("<style");
    let end_script = chars_of("</script>");
    let end_style = chars_of("</style>");
    proof {
        reveal_strlit("</script>");
        reveal_strlit("</style>");
        reveal_strlit("<script");
        reveal_strlit("<style");
    }
    let mut out: Vec<char> = Vec::new();
    let mut cursor: usize = 0;
    while cursor < s.len()
        invariant
            cursor <= s.len(),
            low@ == ascii_lower_seq(html@),
            s@ == html@,
            low@.len() == s@.len(),
            script@ == "<script"@,
            style@ == "<style"@,
            end_script@ == "</script>"@,
            end_style@ == "</style>"@,
            end_script@.len() == 9,
            end_style@.len() == 8,
            script@.len() == 7,
            style@.len() == 6,
            drop_scripted_spec(html@) == out@ + unscripted_from(s@, low@, cursor as int),
        decreases s.len() - cursor,
    {
        let ghost o = out@;
        let a = find(&low, &script, cursor);
        let b = find(&low, &style, cursor);
        proof {
            lemma_find_from_props(low@, cursor as int, script@);
            lemma_find_from_props(low@, cursor as int, style@);
        }
        let next: Option<(usize, bool)> = match (a, b) {
            (Some(x), Some(y)) => if x <= y {
                Some((x, true))
            } else {
                Some((y, false))
            },
            (Some(x), None) => Some((x, true)),
            (None, Some(y)) => Some((y, false)),
            (None, None) => None,
        };
        match next {
            None => {
                push_range(&mut out, &s, cursor, s.len());
                assert(s@.subrange(cursor as int, s@.len() as int) =~= s@.skip(cursor as int));
                cursor = s.len();
                assert(unscripted_from(s@, low@, cursor as int) =~= Seq::<char>::empty());
                assert(out@ =~= out@ + unscripted_from(s@, low@, cursor as int));
            },
            Some((start, is_script)) => {
                push_range(&mut out, &s, cursor, start);
                let end_tag = if is_script { &end_script } else { &end_style };
                let found = if start + 1 <= low.len() { find(&low, end_tag, start + 1) } else { None };
                match found {
                    Some(i) => {
                        proof {
                            lemma_find_from_props(low@, start + 1, end_tag@);
                        }
                        cursor = i + end_tag.len();
                    },
                    None => {
                        cursor = s.len();
                        assert(unscripted_from(s@, low@, cursor as int) =~= Seq::<char>::empty());
                        assert(out@ =~= out@ + unscripted_from(s@, low@, cursor as int));
                    },
                }
            },
        }
    }
    assert(unscripted_from(s@, low@, cursor as int) =~= Seq::<char>::empty());
    assert(out@ =~= out@ + unscripted_from(s@, low@, cursor as int));
    string_from(out)
}

/// The entity decoding applied to page text, in order.
pub open spec fn decode_spec(s: Seq<char>) -> Seq<char> {
    replace_spec(
        replace_spec(
            replace_spec(replace_spec(replace_spec(s, "&amp;"@, "&"@), "&lt;"@, "<"@), "&gt;"@, ">"@),
            "&quot;"@,
            "\""@,
        ),
        "&#39;"@,
        "'"@,
    )
}

/// Whitespace runs collapsed to one space; leading whitespace dropped.
pub open spec fn collapse_acc(s: Seq<char>) -> (Seq<char>, bool)
    decreases s.len(),
{
    if s.len() == 0 {
        (seq![], false)
    } else {
        let (out, last_ws) = collapse_acc(s.drop_last());
        let c = s.last();
        if is_ws(c) {
            if !last_ws && out.len() > 0 {
                (out.push(' '), true)
            } else {
                (out, last_ws)
            }
        } else {
            (out.push(c), false)
        }
    }
}

/// The plain text of a page: scripts and styles dropped, tags removed,
/// common entities decoded, whitespace collapsed, trailing space trimmed.
pub open spec fn page_text_spec(html: Seq<char>) -> Seq<char> {
    trim_end_spec(
        collapse_acc(decode_spec(strip_tags_spec(drop_scripted_spec(html)))).0,
        CharClass::Ws,
    )
}

/// Remove HTML tags and collapse whitespace, for the search index.
pub fn strip_page_tags(html: &str) -> (r: String)
    ensures
        r@ == page_text_spec(html@),
{
    let cleaned = drop_scripted(html);
    let buf = strip_tags(&chars_of(cleaned.as_str()));
    proof {
        reveal_strlit("&amp;");
        reveal_strlit("&lt;");
        reveal_strlit("&gt;");
        reveal_strlit("&quot;");
        reveal_strlit("&#39;");
    }
    let d1 = replace_str(&buf, "&amp;", "&");
    let d2 = replace_str(&d1, "&lt;", "<");
    let d3 = replace_str(&d2, "&gt;", ">");
    let d4 = replace_str(&d3, "&quot;", "\"");
    let decoded = replace_str(&d4, "&#39;", "'");
    let mut out: Vec<char> = Vec::new();
    let mut last_was_ws = false;
    let mut i: usize = 0;
    while i < decoded.len()
        invariant
            i <= decoded.len(),
            (out@, last_was_ws) == collapse_acc(decoded@.take(i as int)),
        decreases decoded.len() - i,
    {
        assert(decoded@.take(i + 1).drop_last() =~= decoded@.take(i as int));
        let c = decoded[i];
        if is_whitespace(c) {
            if !last_was_ws && out.len() > 0 {
                out.push(' ');
                last_was_ws = true;
            }
        } else {
            out.push(c);
            last_was_ws = false;
        }
        i = i + 1;
    }
    assert(decoded@.take(decoded@.len() as int) =~= decoded@);
    string_from(trim_end_vec(&out, CharClass::Ws))
}


/// The search plugin: the text of each rendered page, in build order.
pub struct SearchPlugin {
    entries: Vec<SearchEntry>,
}

impl SearchPlugin {
    pub closed spec fn seen(&self) -> Seq<SearchEntry> {
        self.entries@
    }

    pub fn new() -> (r: Self)
        ensures
            r.seen().len() == 0,
    {
        SearchPlugin { entries: Vec::new() }
    }

    /// Record a rendered page: its URL, title and plain text.
    pub fn record_page(&mut self, url: &str, title: &str, html: &str)
        ensures
            final(self).seen().len() == old(self).seen().len() + 1,
            final(self).seen().drop_last() == old(self).seen(),
            final(self).seen().last().url@ == url@,
            final(self).seen().last().title@ == title@,
            final(self).seen().last().section is None,
            final(self).seen().last().body@ == page_text_spec(html@),
    {
        let e = SearchEntry {
            url: string_from(chars_of(url)),
            title: string_from(chars_of(title)),
            section: None,
            body: strip_page_tags(html),
        };
        self.entries.push(e);
        assert(self.entries@.drop_last() =~= old(self).entries@);
    }

    /// Hand out the entries collected so far and forget them.
    pub fn take(&mut self) -> (r: Vec<SearchEntry>)
        ensures
            r@ == old(self).seen(),
            final(self).seen().len() == 0,
    {
        let mut out: Vec<SearchEntry> = Vec::new();
        std::mem::swap(&mut out, &mut self.entries);
        out
    }
}

} // verus!
