//! A copy-to-clipboard button for every code block.
//!
//! Each `<pre>...</pre>` is wrapped in a container with a `<button>`; the
//! click handler lives in the theme's script.
use vstd::prelude::*;
use crate::text::{
    chars_of, find, find_from, lemma_find_from_props, push_range, push_str, string_from,
    contains_seq,
};

verus! {

/// The code-copy plugin.
pub struct CodeCopyPlugin;

pub open spec fn copy_button() -> Seq<char> {
    "<div class=\"code-copy-wrap\"><button class=\"code-copy\" type=\"button\" aria-label=\"Copy code\">Copy</button>"@
}

/// The output for the input from `cur` on: each `<pre>` through its
/// `</pre>` wrapped; a `<pre>` without one keeps the button and the rest.
pub open spec fn copy_from(s: Seq<char>, cur: int) -> Seq<char>
    decreases s.len() - cur,
{
    if cur < 0 || cur >= s.len() {
        seq![]
    } else {
        match find_from(s, cur, "<pre>"@) {
            None => s.skip(cur),
            Some(start) => {
                proof {
                    lemma_find_from_props(s, cur, "<pre>"@);
                    reveal_strlit("<pre>");
                    reveal_strlit("</pre>");
                    lemma_find_from_props(s, start, "</pre>"@);
                }
                match find_from(s, start, "</pre>"@) {
                    None => s.subrange(cur, start) + copy_button() + s.skip(start),
                    Some(i) => s.subrange(cur, start) + copy_button() + s.subrange(start, i + 6)
                        + "</div>"@ + copy_from(s, i + 6),
                }
            },
        }
    }
}

/// Wrap each `<pre>` block with a copy button.
pub fn inject_buttons(html: &str) -> (r: String)
    ensures
        r@ == copy_from(html@, 0),
        !contains_seq(html@, "<pre>"@) ==> r@ == html@,
{
    let s = chars_of(html);
    let open = chars_of("<pre>");
    let close = chars_of("</pre>");
    proof {
        reveal_strlit("<pre>");
        reveal_strlit("</pre>");
    }
    let mut out: Vec<char> = Vec::new();
    let mut cursor: usize = 0;
    while cursor < s.len()
        invariant
            cursor <= s.len(),
            s@ == html@,
            open@ == "<pre>"@,
            close@ == "</pre>"@,
            open@.len() == 5,
            close@.len() == 6,
            copy_from(s@, 0) == out@ + copy_from(s@, cursor as int),
        decreases s.len() - cursor,
    {
        let ghost o = out@;
        match find(&s, &open, cursor) {
            None => {
                push_range(&mut out, &s, cursor, s.len());
                assert(s@.subrange(cursor as int, s@.len() as int) =~= s@.skip(cursor as int));
                cursor = s.len();
            },
            Some(start) => {
                proof {
                    lemma_find_from_props(s@, cursor as int, open@);
                    lemma_find_from_props(s@, start as int, close@);
                }
                push_range(&mut out, &s, cursor, start);
                push_str(&mut out, "<div class=\"code-copy-wrap\"><button class=\"code-copy\" type=\"button\" aria-label=\"Copy code\">Copy</button>");
                match find(&s, &close, start) {
                    None => {
                        push_range(&mut out, &s, start, s.len());
                        assert(s@.subrange(start as int, s@.len() as int) =~= s@.skip(start as int));
                        assert(out@ =~= o + copy_from(s@, cursor as int));
                        cursor = s.len();
                    },
                    Some(i) => {
                        push_range(&mut out, &s, start, i + 6);
                        push_str(&mut out, "</div>");
                        assert(out@ + copy_from(s@, i + 6) =~= o + copy_from(s@, cursor as int));
                        cursor = i + 6;
                    },
                }
            },
        }
    }
    assert(copy_from(s@, cursor as int) =~= Seq::<char>::empty());
    assert(out@ =~= out@ + copy_from(s@, cursor as int));
    proof {
        if !contains_seq(html@, "<pre>"@) {
            if s@.len() > 0 {
                assert(s@.skip(0) =~= s@);
            } else {
                assert(copy_from(s@, 0) =~= s@);
            }
        }
    }
    string_from(out)
}

} // verus!
