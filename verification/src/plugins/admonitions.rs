//! GitHub-flavored alerts rendered as admonition boxes.
//!
//! A `<blockquote>` whose first paragraph starts with `[!NOTE]`, `[!TIP]`,
//! `[!IMPORTANT]`, `[!WARNING]` or `[!CAUTION]` (any case) becomes
//! `<div class="admonition {type}">` with a title header.
use vstd::prelude::*;
use crate::text::{
    ascii_lower_seq, chars_of, eq_vec, find, find_from, lemma_find_from_props, push_all,
    push_range, push_str, slice, starts_with, starts_with_exec, string_from, to_ascii_lower,
    trim_start_spec, trim_start_vec, CharClass, contains_seq,
};

verus! {

/// The admonitions plugin.
pub struct AdmonitionsPlugin;

/// `(slug, title)` of an alert type named `kind`, any ASCII case.
pub open spec fn alert_kind(kind: Seq<char>) -> Option<(Seq<char>, Seq<char>)> {
    let k = ascii_lower_seq(kind);
    if k == "note"@ {
        Some(("note"@, "Note"@))
    } else if k == "tip"@ {
        Some(("tip"@, "Tip"@))
    } else if k == "important"@ {
        Some(("important"@, "Important"@))
    } else if k == "warning"@ {
        Some(("warning"@, "Warning"@))
    } else if k == "caution"@ {
        Some(("caution"@, "Caution"@))
    } else {
        None
    }
}

/// What follows the `[!TYPE]` marker: whitespace, one `<br />` or `<br/>`
/// (or both, in that order), and whitespace removed.
pub open spec fn alert_tail(t0: Seq<char>) -> Seq<char> {
    let t1 = trim_start_spec(t0, CharClass::Ws);
    let t2 = if starts_with(t1, "<br />"@) {
        t1.skip(6)
    } else {
        t1
    };
    let t3 = if starts_with(t2, "<br/>"@) {
        t2.skip(5)
    } else {
        t2
    };
    trim_start_spec(t3, CharClass::Ws)
}

/// If the blockquote's inner HTML starts (after whitespace) with
/// `<p>[!TYPE]` for a known type, its `(slug, title, body)`.
pub open spec fn detect_spec(inner: Seq<char>) -> Option<(Seq<char>, Seq<char>, Seq<char>)> {
    let tr = trim_start_spec(inner, CharClass::Ws);
    if !starts_with(tr, "<p>[!"@) {
        None
    } else {
        let after = tr.skip(5);
        match find_from(after, 0, seq![']']) {
            None => None,
            Some(c) => match alert_kind(after.take(c)) {
                None => None,
                Some((slug, title)) => Some((slug, title, alert_tail(after.skip(c + 1)))),
            },
        }
    }
}

/// The replacement of one blockquote with inner HTML `inner`.
pub open spec fn block_out(inner: Seq<char>) -> Seq<char> {
    match detect_spec(inner) {
        Some((slug, title, tail)) => "<div class=\"admonition "@ + slug
            + "\"><div class=\"admonition-title\">"@ + title + "</div>"@ + trim_start_spec(
            tail,
            CharClass::Ws,
        ) + "</div>"@,
        None => "<blockquote>"@ + inner + "</blockquote>"@,
    }
}

/// The transform of `s[cur..]`: text up to each `<blockquote>` copied,
/// each complete blockquote replaced by `block_out` of its inner HTML,
/// the rest copied once no complete blockquote is left.
pub open spec fn adm_from(s: Seq<char>, cur: int) -> Seq<char>
    decreases s.len() - cur,
{
    if cur < 0 || cur >= s.len() {
        seq![]
    } else {
        match find_from(s, cur, "<blockquote>"@) {
            None => s.skip(cur),
            Some(st) => match find_from(s, st + 12, "</blockquote>"@) {
                None => s.skip(cur),
                Some(e) => {
                    proof {
                        lemma_find_from_props(s, cur, "<blockquote>"@);
                    }
                    if st >= cur && st + 12 <= s.len() {
                        proof {
                            lemma_find_from_props(s, st + 12, "</blockquote>"@);
                            reveal_strlit("</blockquote>");
                        }
                        s.subrange(cur, st) + block_out(s.subrange(st + 12, e)) + adm_from(
                            s,
                            e + 13,
                        )
                    } else {
                        seq![]
                    }
                },
            },
        }
    }
}

fn alert_kind_exec(kind: &Vec<char>) -> (r: Option<(&'static str, &'static str)>)
    ensures
        match r {
            Some((a, b)) => alert_kind(kind@) == Some((a@, b@)),
            None => alert_kind(kind@) is None,
        },
{
    let k = to_ascii_lower(kind);
    if eq_vec(&k, &chars_of("note")) {
        Some(("note", "Note"))
    } else if eq_vec(&k, &chars_of("tip")) {
        Some(("tip", "Tip"))
    } else if eq_vec(&k, &chars_of("important")) {
        Some(("important", "Important"))
    } else if eq_vec(&k, &chars_of("warning")) {
        Some(("warning", "Warning"))
    } else if eq_vec(&k, &chars_of("caution")) {
        Some(("caution", "Caution"))
    } else {
        None
    }
}

fn strip_prefix_lit(s: Vec<char>, p: &str) -> (r: Vec<char>)
    ensures
        r@ == if starts_with(s@, p@) {
            s@.skip(p@.len() as int)
        } else {
            s@
        },
{
    let pv = chars_of(p);
    if starts_with_exec(&s, &pv) {
        let r = slice(&s, pv.len(), s.len());
        assert(r@ =~= s@.skip(p@.len() as int));
        r
    } else {
        s
    }
}

/// If the first meaningful content matches `[!TYPE]`, return
/// `(type slug, title, remaining inner HTML)`.
pub fn detect_alert(inner: &Vec<char>) -> (r: Option<(&'static str, &'static str, Vec<char>)>)
    ensures
        match r {
            Some((a, b, t)) => detect_spec(inner@) == Some((a@, b@, t@)),
            None => detect_spec(inner@) is None,
        },
{
    let tr = trim_start_vec(inner, CharClass::Ws);
    let mark = chars_of("<p>[!");
    proof {
        reveal_strlit("<p>[!");
    }
    if !starts_with_exec(&tr, &mark) {
        return None;
    }
    let after = slice(&tr, 5, tr.len());
    assert(after@ =~= tr@.skip(5));
    let close = chars_of("]");
    proof {
        reveal_strlit("]");
    }
    assert(close@ =~= seq![']']);
    let c = match find(&after, &close, 0) {
        Some(c) => c,
        None => {
            return None;
        },
    };
    proof {
        lemma_find_from_props(after@, 0, close@);
    }
    let kind = slice(&after, 0, c);
    assert(kind@ =~= after@.take(c as int));
    let (slug, title) = match alert_kind_exec(&kind) {
        Some(p) => p,
        None => {
            return None;
        },
    };
    let t0 = slice(&after, c + 1, after.len());
    assert(t0@ =~= after@.skip(c + 1));
    let t1 = trim_start_vec(&t0, CharClass::Ws);
    proof {
        reveal_strlit("<br />");
        reveal_strlit("<br/>");
    }
    let t2 = strip_prefix_lit(t1, "<br />");
    let t3 = strip_prefix_lit(t2, "<br/>");
    let t4 = trim_start_vec(&t3, CharClass::Ws);
    Some((slug, title, t4))
}

/// Replace each `<blockquote>` holding an alert by an admonition box.
pub fn transform(html: &str) -> (r: String)
    ensures
        r@ == adm_from(html@, 0),
        !contains_seq(html@, "<blockquote>"@) ==> r@ == html@,
{
    let s = chars_of(html);
    let open = chars_of("<blockquote>");
    let close = chars_of("</blockquote>");
    proof {
        reveal_strlit("<blockquote>");
        reveal_strlit("</blockquote>");
    }
    let mut out: Vec<char> = Vec::new();
    let mut cursor: usize = 0;
    while cursor < s.len()
        invariant
            cursor <= s.len(),
            open@ == "<blockquote>"@,
            close@ == "</blockquote>"@,
            open@.len() == 12,
            close@.len() == 13,
            adm_from(s@, 0) == out@ + adm_from(s@, cursor as int),
        decreases s.len() - cursor,
    {
        let ghost o = out@;
        match find(&s, &open, cursor) {
            None => {
                push_range(&mut out, &s, cursor, s.len());
                assert(out@ =~= o + s@.skip(cursor as int));
                assert(adm_from(s@, s@.len() as int) =~= Seq::<char>::empty());
                cursor = s.len();
            },
            Some(st) => {
                proof {
                    lemma_find_from_props(s@, cursor as int, open@);
                }
                match find(&s, &close, st + 12) {
                    None => {
                        push_range(&mut out, &s, cursor, s.len());
                        assert(out@ =~= o + s@.skip(cursor as int));
                        assert(adm_from(s@, s@.len() as int) =~= Seq::<char>::empty());
                        cursor = s.len();
                    },
                    Some(e) => {
                        proof {
                            lemma_find_from_props(s@, st + 12, close@);
                        }
                        push_range(&mut out, &s, cursor, st);
                        let inner = slice(&s, st + 12, e);
                        let ghost o1 = out@;
                        match detect_alert(&inner) {
                            Some((slug, title, rest)) => {
                                push_str(&mut out, "<div class=\"admonition ");
                                push_str(&mut out, slug);
                                push_str(&mut out, "\"><div class=\"admonition-title\">");
                                push_str(&mut out, title);
                                push_str(&mut out, "</div>");
                                let rt = trim_start_vec(&rest, CharClass::Ws);
                                push_all(&mut out, &rt);
                                push_str(&mut out, "</div>");
                            },
                            None => {
                                push_str(&mut out, "<blockquote>");
                                push_all(&mut out, &inner);
                                push_str(&mut out, "</blockquote>");
                            },
                        }
                        assert(out@ =~= o1 + block_out(inner@));
                        assert(out@ + adm_from(s@, e + 13) =~= o + (s@.subrange(
                            cursor as int,
                            st as int,
                        ) + block_out(s@.subrange(st + 12, e as int)) + adm_from(s@, e + 13)));
                        cursor = e + 13;
                    },
                }
            },
        }
    }
    assert(adm_from(s@, cursor as int) =~= Seq::<char>::empty());
    assert(out@ =~= out@ + adm_from(s@, cursor as int));
    proof {
        if !contains_seq(html@, "<blockquote>"@) {
            if s@.len() > 0 {
                assert(s@.skip(0) =~= s@);
            } else {
                assert(adm_from(s@, 0) =~= s@);
            }
        }
    }
    string_from(out)
}

} // verus!
