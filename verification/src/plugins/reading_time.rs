//! Estimated reading time, prepended to each page as a marker the theme
//! can show ("5 min read").
//!
//! Rate: 200 words per minute; pages shorter than that still show one
//! minute.
use vstd::prelude::*;
use crate::plugins::anchor_links::{strip_tags, strip_tags_spec};
use crate::text::{chars_of, dec_spec, push_dec, push_str, string_from, words, words_spec};

verus! {

/// The reading-time plugin.
pub struct ReadingTimePlugin;

pub const WORDS_PER_MINUTE: usize = 200;

/// The words of a page's text, tags not counted.
pub open spec fn count_words_spec(html: Seq<char>) -> nat {
    words_spec(strip_tags_spec(html)).len()
}

/// Rough word count: strip HTML tags, split on whitespace.
pub fn count_words(html: &str) -> (n: usize)
    ensures
        n == count_words_spec(html@),
{
    let w = words(&strip_tags(&chars_of(html)));
    w.len()
}

/// `words / 200`, rounded up, at least one.
pub open spec fn minutes_spec(words: nat) -> nat {
    let m = (words + 199) / 200;
    if m >= 1 {
        m
    } else {
        1
    }
}

/// The page with its reading-time marker in front.
pub open spec fn with_reading_time_spec(html: Seq<char>) -> Seq<char> {
    let m = dec_spec(minutes_spec(count_words_spec(html)));
    "<span class=\"reading-time\" data-minutes=\""@ + m + "\">"@ + m + " min read</span>"@ + html
}

/// Prepend the reading-time marker to a rendered page.
pub fn with_reading_time(html: &str) -> (r: String)
    ensures
        r@ == with_reading_time_spec(html@),
{
    let words = count_words(html);
    let q = words / WORDS_PER_MINUTE;
    let minutes: usize = if words % WORDS_PER_MINUTE != 0 { q + 1 } else { q };
    let minutes: usize = if minutes >= 1 { minutes } else { 1 };
    assert(minutes == minutes_spec(words as nat)) by (nonlinear_arith)
        requires
            q == words / 200,
            minutes == (if (if words % 200 != 0 { q + 1 } else { q as int }) >= 1 {
                if words % 200 != 0 { q + 1 } else { q as int }
            } else {
                1
            }),
    ;
    let mut out: Vec<char> = Vec::new();
    push_str(&mut out, "<span class=\"reading-time\" data-minutes=\"");
    push_dec(&mut out, minutes as u128);
    push_str(&mut out, "\">");
    push_dec(&mut out, minutes as u128);
    push_str(&mut out, " min read</span>");
    push_str(&mut out, html);
    assert(out@ =~= with_reading_time_spec(html@));
    string_from(out)
}


/// Every page shows at least one minute, and the estimate never falls as
/// the word count grows.
pub proof fn lemma_minutes_monotone(a: nat, b: nat)
    requires
        a <= b,
    ensures
        minutes_spec(a) >= 1,
        minutes_spec(a) <= minutes_spec(b),
{
    assert((a + 199) / 200 <= (b + 199) / 200) by (nonlinear_arith)
        requires
            a <= b,
    ;
}

} // verus!
