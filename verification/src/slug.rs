//! GitHub-compatible slug generation for headings.
use vstd::prelude::*;
use crate::text::{
    chars_of, dec_spec, digit_char, eq_vec, is_whitespace, is_ws, lemma_back_end_bounds, push_all,
    push_dec, slice, string_from, trim_end_spec, trim_end_vec, CharClass,
};

verus! {

/// What `char::is_alphanumeric` returns for a non-ASCII `c` (Unicode
/// `Alphabetic` or `Numeric`).
pub uninterp spec fn unicode_alnum(c: char) -> bool;

/// What `char::to_lowercase` yields for a non-ASCII `c` (Unicode lowercase
/// mapping).
pub uninterp spec fn unicode_lower(c: char) -> Seq<char>;

/// An ASCII character.
pub open spec fn is_ascii_char(c: char) -> bool {
    (c as u32) < 128
}

/// The ASCII letters and digits.
pub open spec fn ascii_alnum(c: char) -> bool {
    let n = c as u32;
    (97 <= n <= 122) || (65 <= n <= 90) || (48 <= n <= 57)
}

/// Whether `c` is alphanumeric: among ASCII characters the letters and
/// digits, beyond ASCII the Unicode classes.
pub open spec fn alnum_spec(c: char) -> bool {
    if is_ascii_char(c) {
        ascii_alnum(c)
    } else {
        unicode_alnum(c)
    }
}

/// The lowercase of an ASCII `c`: `A`..`Z` become `a`..`z`, the others
/// stay.
pub open spec fn ascii_lower(c: char) -> Seq<char> {
    let n = c as u32;
    if 65 <= n <= 90 {
        seq![(n + 32) as char]
    } else {
        seq![c]
    }
}

/// The lowercase of `c`: the ASCII mapping, beyond ASCII the Unicode one.
pub open spec fn lower_spec(c: char) -> Seq<char> {
    if is_ascii_char(c) {
        ascii_lower(c)
    } else {
        unicode_lower(c)
    }
}

/// `char::is_alphanumeric`: for ASCII the letters and digits (as its
/// documentation says); beyond ASCII the Unicode tables are only named.
#[verifier::external_body]
pub(crate) fn is_alnum(c: char) -> (b: bool)
    ensures
        is_ascii_char(c) ==> b == ascii_alnum(c),
        !is_ascii_char(c) ==> b == unicode_alnum(c),
{
    c.is_alphanumeric()
}

/// `char::to_lowercase`, collected: `A`..`Z` map to `a`..`z` and other
/// ASCII characters to themselves; beyond ASCII the mapping is only named.
#[verifier::external_body]
pub(crate) fn lower_of(c: char) -> (r: Vec<char>)
    ensures
        is_ascii_char(c) ==> r@ == ascii_lower(c),
        !is_ascii_char(c) ==> r@ == unicode_lower(c),
{
    c.to_lowercase().collect()
}

/// The slug before trailing hyphens are dropped, with the flag telling
/// whether the last thing emitted was a whitespace hyphen.
pub open spec fn slug_acc(s: Seq<char>) -> (Seq<char>, bool)
    decreases s.len(),
{
    if s.len() == 0 {
        (seq![], false)
    } else {
        let (out, sep) = slug_acc(s.drop_last());
        let ch = s.last();
        if alnum_spec(ch) {
            (out + lower_spec(ch), false)
        } else if ch == '-' || ch == '_' {
            (out.push(ch), false)
        } else if is_ws(ch) && !sep && out.len() > 0 {
            (out.push('-'), true)
        } else {
            (out, sep)
        }
    }
}

/// Lowercase alphanumerics, keep `-` and `_`, turn each run of whitespace
/// after some output into one `-`, drop everything else, then drop
/// trailing hyphens.
pub open spec fn slugify_spec(s: Seq<char>) -> Seq<char> {
    trim_end_spec(slug_acc(s).0, CharClass::Ch('-'))
}

pub fn slugify_chars(text: &Vec<char>) -> (r: Vec<char>)
    ensures
        r@ == slugify_spec(text@),
{
    let mut out: Vec<char> = Vec::new();
    let mut last_was_sep = false;
    let mut i: usize = 0;
    while i < text.len()
        invariant
            i <= text.len(),
            (out@, last_was_sep) == slug_acc(text@.take(i as int)),
        decreases text.len() - i,
    {
        let ch = text[i];
        assert(text@.take(i + 1).drop_last() =~= text@.take(i as int));
        if is_alnum(ch) {
            let low = lower_of(ch);
            push_all(&mut out, &low);
            last_was_sep = false;
        } else if ch == '-' || ch == '_' {
            out.push(ch);
            last_was_sep = false;
        } else if is_whitespace(ch) && !last_was_sep && out.len() > 0 {
            out.push('-');
            last_was_sep = true;
        }
        i = i + 1;
    }
    assert(text@.take(text@.len() as int) =~= text@);
    trim_end_vec(&out, CharClass::Ch('-'))
}

/// GitHub-compatible slug generation for headings.
///
/// Lowercases, strips everything except alphanumerics / spaces / hyphens, and
/// replaces runs of whitespace with a single hyphen.
pub fn slugify(text: &str) -> (r: String)
    ensures
        r@ == slugify_spec(text@),
        r@.len() > 0 ==> r@.last() != '-',
{
    let t = chars_of(text);
    let out = slugify_chars(&t);
    proof {
        let acc = slug_acc(text@).0;
        lemma_back_end_bounds(acc, acc.len() as int, CharClass::Ch('-'));
    }
    string_from(out)
}

/// A character a slug of ASCII text is made of: a lowercase ASCII letter,
/// a digit, `-` or `_`.
pub open spec fn slug_char(c: char) -> bool {
    let n = c as u32;
    (97 <= n <= 122) || (48 <= n <= 57) || c == '-' || c == '_'
}

/// Every character `slug_acc` emits for ASCII text is a slug character.
proof fn lemma_slug_acc_chars(s: Seq<char>)
    requires
        forall|i: int| 0 <= i < s.len() ==> is_ascii_char(#[trigger] s[i]),
    ensures
        forall|i: int| 0 <= i < slug_acc(s).0.len() ==> slug_char(#[trigger] slug_acc(s).0[i]),
    decreases s.len(),
{
    if s.len() > 0 {
        let init = s.drop_last();
        assert forall|i: int| 0 <= i < init.len() implies is_ascii_char(#[trigger] init[i]) by {
            assert(init[i] == s[i]);
        }
        lemma_slug_acc_chars(init);
        let ch = s.last();
        assert(is_ascii_char(s[s.len() - 1]));
        let n = ch as u32;
        let out = slug_acc(init).0;
        let tail = if alnum_spec(ch) {
            lower_spec(ch)
        } else if ch == '-' || ch == '_' {
            seq![ch]
        } else if is_ws(ch) && !slug_acc(init).1 && out.len() > 0 {
            seq!['-']
        } else {
            seq![]
        };
        assert forall|i: int| 0 <= i < tail.len() implies slug_char(#[trigger] tail[i]) by {
            if alnum_spec(ch) && 65 <= n <= 90 {
                let low = (n + 32) as char;
                assert(low as u32 == n + 32);
            }
        }
        assert(slug_acc(s).0 =~= out + tail);
        assert forall|i: int| 0 <= i < slug_acc(s).0.len() implies slug_char(#[trigger] slug_acc(s).0[i]) by {
            if i < out.len() {
                assert(slug_acc(s).0[i] == out[i]);
            } else {
                assert(slug_acc(s).0[i] == tail[i - out.len()]);
            }
        }
    }
}

/// `slug_acc` leaves a string of slug characters as it is.
proof fn lemma_slug_acc_fixed(s: Seq<char>)
    requires
        forall|i: int| 0 <= i < s.len() ==> slug_char(#[trigger] s[i]),
    ensures
        slug_acc(s).0 == s,
    decreases s.len(),
{
    if s.len() > 0 {
        let init = s.drop_last();
        assert forall|i: int| 0 <= i < init.len() implies slug_char(#[trigger] init[i]) by {
            assert(init[i] == s[i]);
        }
        lemma_slug_acc_fixed(init);
        assert(slug_char(s[s.len() - 1]));
        assert(init.push(s.last()) =~= s);
    }
}

/// Slugifying the slug of an ASCII text again gives the same slug.
pub proof fn lemma_slugify_idempotent(text: Seq<char>)
    requires
        forall|i: int| 0 <= i < text.len() ==> is_ascii_char(#[trigger] text[i]),
    ensures
        slugify_spec(slugify_spec(text)) == slugify_spec(text),
{
    let acc = slug_acc(text).0;
    lemma_slug_acc_chars(text);
    lemma_back_end_bounds(acc, acc.len() as int, CharClass::Ch('-'));
    let s = slugify_spec(text);
    assert forall|i: int| 0 <= i < s.len() implies slug_char(#[trigger] s[i]) by {
        assert(s[i] == acc[i]);
    }
    lemma_slug_acc_fixed(s);
    if s.len() > 0 {
        assert(s[s.len() - 1] == acc[s.len() - 1]);
    }
    assert(trim_end_spec(s, CharClass::Ch('-')) =~= s);
}

/// `slug_acc` reads its input left to right: two inputs that leave the
/// same state go on alike.
proof fn lemma_slug_acc_extend(p1: Seq<char>, p2: Seq<char>, b: Seq<char>)
    requires
        slug_acc(p1) == slug_acc(p2),
    ensures
        slug_acc(p1 + b) == slug_acc(p2 + b),
    decreases b.len(),
{
    if b.len() == 0 {
        assert(p1 + b =~= p1);
        assert(p2 + b =~= p2);
    } else {
        lemma_slug_acc_extend(p1, p2, b.drop_last());
        assert((p1 + b).drop_last() =~= p1 + b.drop_last());
        assert((p2 + b).drop_last() =~= p2 + b.drop_last());
        assert((p1 + b).last() == b.last());
        assert((p2 + b).last() == b.last());
    }
}

/// A run of whitespace becomes a single hyphen: a second ASCII whitespace
/// character right after an ASCII whitespace character does not change the
/// slug, so `slugify("a  b") == slugify("a b")`.
pub proof fn lemma_whitespace_run_one_hyphen(a: Seq<char>, w1: char, w2: char, b: Seq<char>)
    requires
        is_ws(w1),
        is_ascii_char(w1),
        is_ws(w2),
        is_ascii_char(w2),
    ensures
        slugify_spec(a.push(w1) + seq![w2] + b) == slugify_spec(a.push(w1) + b),
{
    let p = a.push(w1);
    assert(p.drop_last() =~= a);
    assert(p.last() == w1);
    assert(!alnum_spec(w1) && w1 != '-' && w1 != '_');
    assert(!alnum_spec(w2) && w2 != '-' && w2 != '_');
    let q = p.push(w2);
    assert(q.drop_last() =~= p);
    assert(q.last() == w2);
    assert(slug_acc(q) == slug_acc(p));
    lemma_slug_acc_extend(q, p, b);
    assert(a.push(w1) + seq![w2] + b =~= q + b);
}

/// Other characters are dropped without a trace: removing an ASCII
/// character that is not a letter, digit, `-`, `_` or whitespace does not
/// change the slug (so `Install & Configure` slugs as `Install Configure`).
pub proof fn lemma_punctuation_dropped(a: Seq<char>, c: char, b: Seq<char>)
    requires
        is_ascii_char(c),
        !ascii_alnum(c),
        c != '-',
        c != '_',
        !is_ws(c),
    ensures
        slugify_spec(a.push(c) + b) == slugify_spec(a + b),
{
    let q = a.push(c);
    assert(q.drop_last() =~= a);
    assert(q.last() == c);
    assert(slug_acc(q) == slug_acc(a));
    lemma_slug_acc_extend(q, a, b);
}

/// The `n`-th alternative for a taken slug: `base-n`.
pub open spec fn candidate(base: Seq<char>, n: nat) -> Seq<char> {
    base + seq!['-'] + dec_spec(n)
}

/// The character views of a list of strings.
pub open spec fn str_views(v: Seq<String>) -> Seq<Seq<char>> {
    v.map_values(|s: String| s@)
}

/// The set of strings a `seen` list holds.
pub open spec fn string_set(v: Seq<String>) -> Set<Seq<char>> {
    str_views(v).to_set()
}

/// The slug `unique_slug` picks: the base when it is free, else the first
/// free `base-n` with `n >= 1`.
pub open spec fn is_first_free(base: Seq<char>, seen: Set<Seq<char>>, r: Seq<char>) -> bool {
    if !seen.contains(base) {
        r == base
    } else {
        exists|n: nat|
            n >= 1 && r == candidate(base, n) && !seen.contains(candidate(base, n)) && forall|
                k: nat,
            |
                1 <= k < n ==> seen.contains(#[trigger] candidate(base, k))
    }
}

/// The slug picked for `base` against `seen` (the one `is_first_free`
/// allows: see `lemma_first_free_unique`).
pub open spec fn free_slug(base: Seq<char>, seen: Set<Seq<char>>) -> Seq<char> {
    choose|r: Seq<char>| is_first_free(base, seen, r)
}

/// Only one slug is the first free one.
pub proof fn lemma_first_free_unique(base: Seq<char>, seen: Set<Seq<char>>, r: Seq<char>)
    requires
        is_first_free(base, seen, r),
    ensures
        r == free_slug(base, seen),
{
    let r2 = free_slug(base, seen);
    assert(is_first_free(base, seen, r2));
    if seen.contains(base) {
        let n1 = choose|n: nat|
            n >= 1 && r == candidate(base, n) && !seen.contains(candidate(base, n)) && forall|
                k: nat,
            |
                1 <= k < n ==> seen.contains(#[trigger] candidate(base, k));
        let n2 = choose|n: nat|
            n >= 1 && r2 == candidate(base, n) && !seen.contains(candidate(base, n)) && forall|
                k: nat,
            |
                1 <= k < n ==> seen.contains(#[trigger] candidate(base, k));
        if n1 < n2 {
            assert(seen.contains(candidate(base, n1)));
        } else if n2 < n1 {
            assert(seen.contains(candidate(base, n2)));
        }
    }
}

proof fn lemma_dec_len(n: nat)
    ensures
        dec_spec(n).len() >= 1,
        n >= 10 ==> dec_spec(n).len() >= 2,
    decreases n,
{
    if n >= 10 {
        lemma_dec_len(n / 10);
    }
}

proof fn lemma_singleton_eq(x: char, y: char)
    requires
        seq![x] == seq![y],
    ensures
        x == y,
{
    assert(seq![x][0] == x);
    assert(seq![y][0] == y);
}

proof fn lemma_push_eq(s: Seq<char>, t: Seq<char>, x: char, y: char)
    requires
        s.push(x) == t.push(y),
    ensures
        x == y,
{
    assert(s.push(x).len() == s.len() + 1);
    assert(t.push(y).len() == t.len() + 1);
    assert(s.len() == t.len());
    assert(s.push(x)[s.len() as int] == x);
    assert(t.push(y)[t.len() as int] == y);
    assert(s.push(x)[s.len() as int] == t.push(y)[s.len() as int]);
}

/// Distinct numbers print differently.
pub proof fn lemma_dec_injective(a: nat, b: nat)
    requires
        dec_spec(a) == dec_spec(b),
    ensures
        a == b,
    decreases a,
{
    lemma_dec_len(a);
    lemma_dec_len(b);
    if a < 10 && b < 10 {
        assert(dec_spec(a) =~= seq![digit_char(a)]);
        assert(dec_spec(b) =~= seq![digit_char(b)]);
        lemma_singleton_eq(digit_char(a), digit_char(b));
    } else if a >= 10 && b >= 10 {
        assert(dec_spec(a).drop_last() == dec_spec(b).drop_last());
        assert(dec_spec(a).drop_last() =~= dec_spec(a / 10));
        assert(dec_spec(b).drop_last() =~= dec_spec(b / 10));
        lemma_dec_injective(a / 10, b / 10);
        assert(dec_spec(a) == dec_spec(a / 10).push(digit_char(a % 10)));
        assert(dec_spec(b) == dec_spec(b / 10).push(digit_char(b % 10)));
        lemma_push_eq(dec_spec(a / 10), dec_spec(b / 10), digit_char(a % 10), digit_char(b % 10));
    } else {
        assert(dec_spec(a).len() != dec_spec(b).len());
    }
}

proof fn lemma_candidate_injective(base: Seq<char>, a: nat, b: nat)
    requires
        candidate(base, a) == candidate(base, b),
    ensures
        a == b,
{
    let k = base.len() + 1int;
    assert(candidate(base, a).skip(k) =~= dec_spec(a));
    assert(candidate(base, b).skip(k) =~= dec_spec(b));
    lemma_dec_injective(a, b);
}

/// Among `base-1 ..= base-(m+1)` some alternative is missing from a set of
/// `m` strings.
proof fn lemma_free_candidate(base: Seq<char>, seen: Seq<Seq<char>>)
    ensures
        exists|n: nat| 1 <= n <= seen.len() + 1 && !seen.to_set().contains(#[trigger] candidate(base, n)),
{
    if forall|n: nat| 1 <= n <= seen.len() + 1 ==> seen.to_set().contains(#[trigger] candidate(base, n)) {
        let m = seen.len() + 1;
        let cs = Seq::new(m, |i: int| candidate(base, (i + 1) as nat));
        assert(cs.no_duplicates()) by {
            assert forall|i: int, j: int| 0 <= i < cs.len() && 0 <= j < cs.len() && i != j implies cs[i]
                != cs[j] by {
                if cs[i] == cs[j] {
                    lemma_candidate_injective(base, (i + 1) as nat, (j + 1) as nat);
                }
            }
        }
        cs.unique_seq_to_set();
        assert(cs.to_set().subset_of(seen.to_set())) by {
            assert forall|x: Seq<char>| cs.to_set().contains(x) implies seen.to_set().contains(x) by {
                let i = choose|i: int| 0 <= i < cs.len() && cs[i] == x;
                assert(seen.to_set().contains(candidate(base, (i + 1) as nat)));
            }
        }
        seen.lemma_cardinality_of_set();
        vstd::set_lib::lemma_len_subset(cs.to_set(), seen.to_set());
        assert(false);
    }
}

/// Some alternative `base-n` is missing from a finite set.
proof fn lemma_some_candidate_free(base: Seq<char>, seen: Set<Seq<char>>)
    requires
        seen.finite(),
    ensures
        exists|n: nat| n >= 1 && !seen.contains(#[trigger] candidate(base, n)),
{
    if forall|n: nat| n >= 1 ==> seen.contains(#[trigger] candidate(base, n)) {
        let m = seen.len() + 1;
        let cs = Seq::new(m, |i: int| candidate(base, (i + 1) as nat));
        assert(cs.no_duplicates()) by {
            assert forall|i: int, j: int| 0 <= i < cs.len() && 0 <= j < cs.len() && i != j implies cs[i]
                != cs[j] by {
                if cs[i] == cs[j] {
                    lemma_candidate_injective(base, (i + 1) as nat, (j + 1) as nat);
                }
            }
        }
        cs.unique_seq_to_set();
        assert(cs.to_set().subset_of(seen)) by {
            assert forall|x: Seq<char>| cs.to_set().contains(x) implies seen.contains(x) by {
                let i = choose|i: int| 0 <= i < cs.len() && cs[i] == x;
                assert(seen.contains(candidate(base, (i + 1) as nat)));
            }
        }
        vstd::set_lib::lemma_len_subset(cs.to_set(), seen);
        assert(false);
    }
}

/// A free alternative `base-n` gives a least one.
proof fn lemma_least_free(base: Seq<char>, seen: Set<Seq<char>>, n: nat)
    requires
        n >= 1,
        !seen.contains(candidate(base, n)),
    ensures
        exists|m: nat|
            m >= 1 && !seen.contains(candidate(base, m)) && forall|k: nat|
                1 <= k < m ==> seen.contains(#[trigger] candidate(base, k)),
    decreases n,
{
    if forall|k: nat| 1 <= k < n ==> seen.contains(#[trigger] candidate(base, k)) {
        assert(n >= 1 && !seen.contains(candidate(base, n)));
    } else {
        let k = choose|k: nat| 1 <= k < n && !seen.contains(#[trigger] candidate(base, k));
        lemma_least_free(base, seen, k);
    }
}

/// The slug picked against a finite set of taken slugs is never one of
/// them.
#[verifier::spinoff_prover]
pub proof fn lemma_free_slug_is_free(base: Seq<char>, seen: Set<Seq<char>>)
    requires
        seen.finite(),
    ensures
        is_first_free(base, seen, free_slug(base, seen)),
        !seen.contains(free_slug(base, seen)),
{
    if !seen.contains(base) {
        assert(is_first_free(base, seen, base));
    } else {
        lemma_some_candidate_free(base, seen);
        let n = choose|n: nat| n >= 1 && !seen.contains(#[trigger] candidate(base, n));
        lemma_least_free(base, seen, n);
        let m = choose|m: nat|
            m >= 1 && !seen.contains(candidate(base, m)) && forall|k: nat|
                1 <= k < m ==> seen.contains(#[trigger] candidate(base, k));
        assert(is_first_free(base, seen, candidate(base, m)));
    }
    let r = free_slug(base, seen);
    assert(is_first_free(base, seen, r));
}

/// Whether `x` is one of the strings of `seen`.
fn seen_contains(seen: &Vec<String>, x: &Vec<char>) -> (b: bool)
    ensures
        b == string_set(seen@).contains(x@),
{
    let mut k: usize = 0;
    while k < seen.len()
        invariant
            k <= seen.len(),
            forall|j: int| 0 <= j < k ==> seen@[j]@ != x@,
        decreases seen.len() - k,
    {
        let s = chars_of(seen[k].as_str());
        if eq_vec(&s, x) {
            assert(str_views(seen@)[k as int] == x@);
            return true;
        }
        k = k + 1;
    }
    assert(!str_views(seen@).contains(x@)) by {
        if str_views(seen@).contains(x@) {
            let j = choose|j: int|
                0 <= j < seen@.len() && #[trigger] str_views(seen@)[j] == x@;
            assert(seen@[j]@ == x@);
        }
    }
    false
}

fn candidate_exec(base: &Vec<char>, n: u128) -> (r: Vec<char>)
    ensures
        r@ == candidate(base@, n as nat),
{
    let mut r: Vec<char> = Vec::new();
    push_all(&mut r, base);
    r.push('-');
    push_dec(&mut r, n);
    assert(r@ =~= candidate(base@, n as nat));
    r
}

/// The first of `base`, `base-1`, `base-2`, ... missing from `seen`.
pub fn first_free(base: &Vec<char>, seen: &Vec<String>) -> (r: Vec<char>)
    ensures
        is_first_free(base@, string_set(seen@), r@),
        !string_set(seen@).contains(r@),
{
    if !seen_contains(seen, base) {
        let r = slice(base, 0, base.len());
        assert(r@ =~= base@);
        return r;
    }
    let len = seen.len();
    let ghost vs = str_views(seen@);
    proof {
        lemma_free_candidate(base@, vs);
    }
    let ghost n0 = choose|n: nat| 1 <= n <= vs.len() + 1 && !vs.to_set().contains(#[trigger] candidate(base@, n));
    let mut n: u128 = 1;
    loop
        invariant
            1 <= n <= n0,
            n0 <= vs.len() + 1,
            vs.len() == seen@.len(),
            seen@.len() == len,
            string_set(seen@) == vs.to_set(),
            string_set(seen@).contains(base@),
            !vs.to_set().contains(candidate(base@, n0)),
            forall|k: nat| 1 <= k < n ==> string_set(seen@).contains(#[trigger] candidate(base@, k)),
        decreases n0 - n,
    {
        let c = candidate_exec(base, n);
        if !seen_contains(seen, &c) {
            assert(is_first_free(base@, string_set(seen@), c@)) by {
                assert(c@ == candidate(base@, n as nat));
                assert(forall|k: nat|
                    1 <= k < n ==> string_set(seen@).contains(#[trigger] candidate(base@, k)));
            }
            return c;
        }
        assert(n != n0);
        n = n + 1;
    }
}

/// Return a slug unique within `seen`, appending `-1`, `-2`, ... as needed,
/// and record it in `seen`.
pub fn unique_slug(text: &str, seen: &mut Vec<String>) -> (r: String)
    ensures
        is_first_free(slugify_spec(text@), string_set(old(seen)@), r@),
        r@ == free_slug(slugify_spec(text@), string_set(old(seen)@)),
        !string_set(old(seen)@).contains(r@),
        string_set(final(seen)@) == string_set(old(seen)@).insert(r@),
{
    let t = chars_of(text);
    let base = slugify_chars(&t);
    let chosen = first_free(&base, seen);
    let out = string_from(chosen);
    let ghost s0 = seen@;
    proof {
        lemma_first_free_unique(base@, string_set(s0), out@);
    }
    seen.push(out.clone());
    assert(str_views(seen@) =~= str_views(s0).push(out@));
    proof {
        let vs0 = str_views(s0);
        Seq::<Seq<char>>::lemma_to_set_insert_commutes(vs0, out@);
        assert(vs0.push(out@) =~= vs0 + seq![out@]);
    }
    out
}

} // verus!
