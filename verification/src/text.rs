//! Character-sequence toolkit shared by every HTML / Markdown transform.
//!
//! All text is processed as a `Vec<char>` whose view is the `Seq<char>` of
//! the `&str` it was read from; the specifications below describe the standard
//! string operations the transforms are built from.
use vstd::prelude::*;

verus! {

/// The Unicode `White_Space` property (PropList.txt), which is exactly what
/// `char::is_whitespace` tests.
pub open spec fn is_ws(c: char) -> bool {
    let u = c as int;
    ||| 9 <= u <= 13
    ||| u == 32
    ||| u == 0x85
    ||| u == 0xA0
    ||| u == 0x1680
    ||| 0x2000 <= u <= 0x200A
    ||| u == 0x2028
    ||| u == 0x2029
    ||| u == 0x202F
    ||| u == 0x205F
    ||| u == 0x3000
}

/// `char::is_whitespace`.
pub fn is_whitespace(c: char) -> (b: bool)
    ensures
        b == is_ws(c),
{
    let u = c as u32;
    (9 <= u && u <= 13) || u == 32 || u == 0x85 || u == 0xA0 || u == 0x1680 || (0x2000 <= u && u
        <= 0x200A) || u == 0x2028 || u == 0x2029 || u == 0x202F || u == 0x205F || u == 0x3000
}

/// A set of characters that a trim or a scan stops at.
#[derive(Clone, Copy)]
pub enum CharClass {
    /// Unicode whitespace.
    Ws,
    /// A single character.
    Ch(char),
    /// Either of two characters.
    Either(char, char),
    /// Unicode whitespace or the given character.
    WsOr(char),
}

pub open spec fn in_class(cls: CharClass, c: char) -> bool {
    match cls {
        CharClass::Ws => is_ws(c),
        CharClass::Ch(a) => c == a,
        CharClass::Either(a, b) => c == a || c == b,
        CharClass::WsOr(a) => is_ws(c) || c == a,
    }
}

pub fn class_has(cls: CharClass, c: char) -> (b: bool)
    ensures
        b == in_class(cls, c),
{
    match cls {
        CharClass::Ws => is_whitespace(c),
        CharClass::Ch(a) => c == a,
        CharClass::Either(a, b) => c == a || c == b,
        CharClass::WsOr(a) => is_whitespace(c) || c == a,
    }
}

/// The first index at or after `i` whose character is not in `cls`
/// (the length when there is none).
pub open spec fn fwd_end(s: Seq<char>, i: int, cls: CharClass) -> int
    decreases s.len() - i,
{
    if i < 0 || i >= s.len() {
        i
    } else if in_class(cls, s[i]) {
        fwd_end(s, i + 1, cls)
    } else {
        i
    }
}

/// Walking back from the exclusive end `j`, the index where a run of
/// characters of `cls` ending at `j` starts.
pub open spec fn back_end(s: Seq<char>, j: int, cls: CharClass) -> int
    decreases j,
{
    if j <= 0 || j > s.len() {
        j
    } else if in_class(cls, s[j - 1]) {
        back_end(s, j - 1, cls)
    } else {
        j
    }
}

pub open spec fn trim_start_spec(s: Seq<char>, cls: CharClass) -> Seq<char> {
    s.skip(fwd_end(s, 0, cls))
}

pub open spec fn trim_end_spec(s: Seq<char>, cls: CharClass) -> Seq<char> {
    s.take(back_end(s, s.len() as int, cls))
}

/// `str::trim` / `str::trim_matches`: both ends.
pub open spec fn trim_spec(s: Seq<char>, cls: CharClass) -> Seq<char> {
    trim_end_spec(trim_start_spec(s, cls), cls)
}

pub proof fn lemma_fwd_end_bounds(s: Seq<char>, i: int, cls: CharClass)
    requires
        0 <= i <= s.len(),
    ensures
        i <= fwd_end(s, i, cls) <= s.len(),
        forall|k: int| i <= k < fwd_end(s, i, cls) ==> in_class(cls, #[trigger] s[k]),
        fwd_end(s, i, cls) < s.len() ==> !in_class(cls, s[fwd_end(s, i, cls)]),
    decreases s.len() - i,
{
    if i < s.len() && in_class(cls, s[i]) {
        lemma_fwd_end_bounds(s, i + 1, cls);
    }
}

pub proof fn lemma_back_end_bounds(s: Seq<char>, j: int, cls: CharClass)
    requires
        0 <= j <= s.len(),
    ensures
        0 <= back_end(s, j, cls) <= j,
        forall|k: int| back_end(s, j, cls) <= k < j ==> in_class(cls, #[trigger] s[k]),
        back_end(s, j, cls) > 0 ==> !in_class(cls, s[back_end(s, j, cls) - 1]),
    decreases j,
{
    if j > 0 && in_class(cls, s[j - 1]) {
        lemma_back_end_bounds(s, j - 1, cls);
    }
}

pub fn fwd_end_exec(s: &Vec<char>, i: usize, cls: CharClass) -> (r: usize)
    requires
        i <= s.len(),
    ensures
        r == fwd_end(s@, i as int, cls),
        i <= r <= s.len(),
{
    let mut k = i;
    while k < s.len() && class_has(cls, s[k])
        invariant
            i <= k <= s.len(),
            fwd_end(s@, i as int, cls) == fwd_end(s@, k as int, cls),
        decreases s.len() - k,
    {
        k = k + 1;
    }
    k
}

pub fn back_end_exec(s: &Vec<char>, j: usize, cls: CharClass) -> (r: usize)
    requires
        j <= s.len(),
    ensures
        r == back_end(s@, j as int, cls),
        r <= j,
{
    let mut k = j;
    while k > 0 && class_has(cls, s[k - 1])
        invariant
            k <= j <= s.len(),
            back_end(s@, j as int, cls) == back_end(s@, k as int, cls),
        decreases k,
    {
        k = k - 1;
    }
    k
}

/// `s[a..b]` as an owned vector.
pub fn slice(s: &Vec<char>, a: usize, b: usize) -> (r: Vec<char>)
    requires
        a <= b <= s.len(),
    ensures
        r@ == s@.subrange(a as int, b as int),
{
    let mut r: Vec<char> = Vec::new();
    let mut k = a;
    while k < b
        invariant
            a <= k <= b <= s.len(),
            r@ == s@.subrange(a as int, k as int),
        decreases b - k,
    {
        r.push(s[k]);
        k = k + 1;
        assert(r@ =~= s@.subrange(a as int, k as int));
    }
    r
}

/// Append `s[a..b]` to `out`.
pub fn push_range(out: &mut Vec<char>, s: &Vec<char>, a: usize, b: usize)
    requires
        a <= b <= s.len(),
    ensures
        final(out)@ == old(out)@ + s@.subrange(a as int, b as int),
{
    let ghost start = out@;
    let mut k = a;
    while k < b
        invariant
            a <= k <= b <= s.len(),
            out@ == start + s@.subrange(a as int, k as int),
        decreases b - k,
    {
        out.push(s[k]);
        k = k + 1;
        assert(out@ =~= start + s@.subrange(a as int, k as int));
    }
}

/// Append all of `s` to `out`.
pub fn push_all(out: &mut Vec<char>, s: &Vec<char>)
    ensures
        final(out)@ == old(out)@ + s@,
{
    push_range(out, s, 0, s.len());
    assert(s@.subrange(0, s@.len() as int) =~= s@);
}

/// Append the characters of a string slice to `out`.
pub fn push_str(out: &mut Vec<char>, s: &str)
    ensures
        final(out)@ == old(out)@ + s@,
{
    let ghost start = out@;
    for c in it: s.chars()
        invariant
            out@ == start + it.seq().take(it.index() as int),
            it.seq() == s@,
    {
        out.push(c);
        assert(out@ =~= start + it.seq().take(it.index() as int + 1));
    }
    assert(s@.take(s@.len() as int) =~= s@);
}

/// The characters of a string slice.
pub fn chars_of(s: &str) -> (v: Vec<char>)
    ensures
        v@ == s@,
{
    let mut v: Vec<char> = Vec::new();
    push_str(&mut v, s);
    assert(v@ =~= s@);
    v
}

/// Builds a `String` from its characters (`String::from_iter`).
#[verifier::external_body]
pub(crate) fn string_from(v: Vec<char>) -> (s: String)
    ensures
        s@ == v@,
{
    String::from_iter(v)
}

/// Trims characters of `cls` from both ends.
pub fn trim_vec(s: &Vec<char>, cls: CharClass) -> (r: Vec<char>)
    ensures
        r@ == trim_spec(s@, cls),
{
    let a = fwd_end_exec(s, 0, cls);
    let t = slice(s, a, s.len());
    assert(t@ =~= trim_start_spec(s@, cls));
    let b = back_end_exec(&t, t.len(), cls);
    let r = slice(&t, 0, b);
    assert(r@ =~= trim_spec(s@, cls));
    r
}

/// Trims characters of `cls` from the start.
pub fn trim_start_vec(s: &Vec<char>, cls: CharClass) -> (r: Vec<char>)
    ensures
        r@ == trim_start_spec(s@, cls),
{
    let a = fwd_end_exec(s, 0, cls);
    let t = slice(s, a, s.len());
    assert(t@ =~= trim_start_spec(s@, cls));
    t
}

/// Trims characters of `cls` from the end.
pub fn trim_end_vec(s: &Vec<char>, cls: CharClass) -> (r: Vec<char>)
    ensures
        r@ == trim_end_spec(s@, cls),
{
    let b = back_end_exec(s, s.len(), cls);
    let r = slice(s, 0, b);
    assert(r@ =~= trim_end_spec(s@, cls));
    r
}

/// `pat` occurs in `s` at index `i`.
pub open spec fn matches_at(s: Seq<char>, i: int, pat: Seq<char>) -> bool {
    0 <= i && i + pat.len() <= s.len() && s.subrange(i, i + pat.len()) == pat
}

/// The first occurrence of `pat` at or after `i` (`str::find` on `s[i..]`).
pub open spec fn find_from(s: Seq<char>, i: int, pat: Seq<char>) -> Option<int>
    decreases s.len() + 1 - i,
{
    if i < 0 || i > s.len() {
        None
    } else if matches_at(s, i, pat) {
        Some(i)
    } else {
        find_from(s, i + 1, pat)
    }
}

/// The last occurrence of `pat` starting at or before `i`.
pub open spec fn rfind_from(s: Seq<char>, i: int, pat: Seq<char>) -> Option<int>
    decreases i + 1,
{
    if i < 0 {
        None
    } else if matches_at(s, i, pat) {
        Some(i)
    } else {
        rfind_from(s, i - 1, pat)
    }
}

/// `str::rfind`.
pub open spec fn rfind_spec(s: Seq<char>, pat: Seq<char>) -> Option<int> {
    rfind_from(s, s.len() - pat.len(), pat)
}

pub open spec fn starts_with(s: Seq<char>, pat: Seq<char>) -> bool {
    matches_at(s, 0, pat)
}

pub open spec fn ends_with(s: Seq<char>, pat: Seq<char>) -> bool {
    matches_at(s, s.len() - pat.len(), pat)
}

pub open spec fn contains_seq(s: Seq<char>, pat: Seq<char>) -> bool {
    find_from(s, 0, pat) is Some
}

pub open spec fn opt_int(r: Option<usize>) -> Option<int> {
    match r {
        Some(j) => Some(j as int),
        None => None,
    }
}

pub proof fn lemma_find_from_props(s: Seq<char>, i: int, pat: Seq<char>)
    requires
        0 <= i <= s.len(),
    ensures
        find_from(s, i, pat) matches Some(j) ==> i <= j <= s.len() && matches_at(s, j, pat) && (
        forall|k: int| i <= k < j ==> !#[trigger] matches_at(s, k, pat)),
        find_from(s, i, pat) is None ==> forall|k: int|
            i <= k <= s.len() ==> !#[trigger] matches_at(s, k, pat),
    decreases s.len() + 1 - i,
{
    if !matches_at(s, i, pat) {
        if i < s.len() {
            lemma_find_from_props(s, i + 1, pat);
        } else {
            assert(find_from(s, i + 1, pat) is None);
        }
    }
}

pub proof fn lemma_rfind_from_props(s: Seq<char>, i: int, pat: Seq<char>)
    ensures
        rfind_from(s, i, pat) matches Some(j) ==> 0 <= j <= i && matches_at(s, j, pat) && (
        forall|k: int| j < k <= i ==> !#[trigger] matches_at(s, k, pat)),
        rfind_from(s, i, pat) is None ==> forall|k: int|
            0 <= k <= i ==> !#[trigger] matches_at(s, k, pat),
    decreases i + 1,
{
    if i >= 0 && !matches_at(s, i, pat) {
        lemma_rfind_from_props(s, i - 1, pat);
    }
}

/// Whether `pat` occurs in `s` at index `i`.
pub fn matches_at_exec(s: &Vec<char>, i: usize, pat: &Vec<char>) -> (b: bool)
    ensures
        b == matches_at(s@, i as int, pat@),
{
    if i > s.len() || pat.len() > s.len() - i {
        return false;
    }
    let mut k: usize = 0;
    while k < pat.len()
        invariant
            k <= pat.len(),
            i + pat.len() <= s.len(),
            forall|j: int| 0 <= j < k ==> s@[i + j] == pat@[j],
        decreases pat.len() - k,
    {
        if s[i + k] != pat[k] {
            assert(s@.subrange(i as int, i + pat@.len())[k as int] != pat@[k as int]);
            return false;
        }
        k = k + 1;
    }
    assert(s@.subrange(i as int, i + pat@.len()) =~= pat@);
    true
}

/// First occurrence of `pat` at or after `from`.
pub fn find(s: &Vec<char>, pat: &Vec<char>, from: usize) -> (r: Option<usize>)
    requires
        from <= s.len(),
    ensures
        opt_int(r) == find_from(s@, from as int, pat@),
{
    let mut i = from;
    while i < s.len()
        invariant
            from <= i <= s.len(),
            find_from(s@, from as int, pat@) == find_from(s@, i as int, pat@),
        decreases s.len() - i,
    {
        if matches_at_exec(s, i, pat) {
            return Some(i);
        }
        i = i + 1;
    }
    if matches_at_exec(s, i, pat) {
        return Some(i);
    }
    assert(find_from(s@, i + 1, pat@) is None);
    None
}

/// Last occurrence of `pat` (`str::rfind`).
pub fn rfind(s: &Vec<char>, pat: &Vec<char>) -> (r: Option<usize>)
    ensures
        opt_int(r) == rfind_spec(s@, pat@),
{
    if pat.len() > s.len() {
        return None;
    }
    let mut i = s.len() - pat.len();
    loop
        invariant
            i + pat.len() <= s.len(),
            rfind_spec(s@, pat@) == rfind_from(s@, i as int, pat@),
        decreases i,
    {
        if matches_at_exec(s, i, pat) {
            return Some(i);
        }
        if i == 0 {
            assert(rfind_from(s@, -1, pat@) is None);
            return None;
        }
        i = i - 1;
    }
}

pub fn starts_with_exec(s: &Vec<char>, pat: &Vec<char>) -> (b: bool)
    ensures
        b == starts_with(s@, pat@),
{
    matches_at_exec(s, 0, pat)
}

pub fn ends_with_exec(s: &Vec<char>, pat: &Vec<char>) -> (b: bool)
    ensures
        b == ends_with(s@, pat@),
{
    if pat.len() > s.len() {
        return false;
    }
    matches_at_exec(s, s.len() - pat.len(), pat)
}

pub fn contains_exec(s: &Vec<char>, pat: &Vec<char>) -> (b: bool)
    ensures
        b == contains_seq(s@, pat@),
{
    find(s, pat, 0).is_some()
}

/// Sequence equality, computed.
pub fn eq_vec(a: &Vec<char>, b: &Vec<char>) -> (r: bool)
    ensures
        r == (a@ == b@),
{
    if a.len() != b.len() {
        return false;
    }
    let r = matches_at_exec(a, 0, b);
    assert(a@.subrange(0, b@.len() as int) =~= a@);
    r
}


/// Characters that an HTML escaper rewrites.
#[derive(Clone, Copy)]
pub enum EscapeSet {
    /// `&`, `<`, `>` (element text).
    Html,
    /// `&`, `"` (attribute values).
    Attr,
    /// `&`, `"`, `<`, `>`.
    Full,
}

pub open spec fn esc_char(c: char, set: EscapeSet) -> Seq<char> {
    if c == '&' {
        "&amp;"@
    } else if c == '"' && !(set is Html) {
        "&quot;"@
    } else if c == '<' && !(set is Attr) {
        "&lt;"@
    } else if c == '>' && !(set is Attr) {
        "&gt;"@
    } else {
        seq![c]
    }
}

/// Every character replaced by its escape (the chained `str::replace`
/// calls of the escapers touch disjoint characters, so one pass agrees).
pub open spec fn escape_spec(s: Seq<char>, set: EscapeSet) -> Seq<char>
    decreases s.len(),
{
    if s.len() == 0 {
        seq![]
    } else {
        escape_spec(s.drop_last(), set) + esc_char(s.last(), set)
    }
}

pub fn escape(s: &Vec<char>, set: EscapeSet) -> (r: Vec<char>)
    ensures
        r@ == escape_spec(s@, set),
{
    let is_html = match set {
        EscapeSet::Html => true,
        _ => false,
    };
    let is_attr = match set {
        EscapeSet::Attr => true,
        _ => false,
    };
    let mut out: Vec<char> = Vec::new();
    let mut i: usize = 0;
    while i < s.len()
        invariant
            i <= s.len(),
            is_html == (set is Html),
            is_attr == (set is Attr),
            out@ == escape_spec(s@.take(i as int), set),
        decreases s.len() - i,
    {
        let c = s[i];
        assert(s@.take(i + 1).drop_last() =~= s@.take(i as int));
        if c == '&' {
            push_str(&mut out, "&amp;");
        } else if c == '"' && !is_html {
            push_str(&mut out, "&quot;");
        } else if c == '<' && !is_attr {
            push_str(&mut out, "&lt;");
        } else if c == '>' && !is_attr {
            push_str(&mut out, "&gt;");
        } else {
            out.push(c);
        }
        i = i + 1;
        assert(out@ =~= escape_spec(s@.take(i as int), set));
    }
    assert(s@.take(s@.len() as int) =~= s@);
    out
}

/// `str::replace(from, to)` for a non-empty `from`, applied to `s[i..]`.
pub open spec fn replace_from(s: Seq<char>, i: int, from: Seq<char>, to: Seq<char>) -> Seq<
    char,
>
    decreases s.len() - i,
{
    if i < 0 || i >= s.len() {
        seq![]
    } else if from.len() > 0 && matches_at(s, i, from) {
        to + replace_from(s, i + from.len(), from, to)
    } else {
        seq![s[i]] + replace_from(s, i + 1, from, to)
    }
}

pub open spec fn replace_spec(s: Seq<char>, from: Seq<char>, to: Seq<char>) -> Seq<char> {
    replace_from(s, 0, from, to)
}

pub fn replace_all(s: &Vec<char>, from: &Vec<char>, to: &Vec<char>) -> (r: Vec<char>)
    requires
        from.len() > 0,
    ensures
        r@ == replace_spec(s@, from@, to@),
{
    let mut out: Vec<char> = Vec::new();
    let mut i: usize = 0;
    while i < s.len()
        invariant
            i <= s.len(),
            from.len() > 0,
            replace_spec(s@, from@, to@) == out@ + replace_from(s@, i as int, from@, to@),
        decreases s.len() - i,
    {
        let ghost before = out@;
        if matches_at_exec(s, i, from) {
            push_all(&mut out, to);
            let ghost rest = replace_from(s@, i + from@.len(), from@, to@);
            assert(before + (to@ + rest) =~= out@ + rest);
            i = i + from.len();
        } else {
            let ghost rest = replace_from(s@, i + 1, from@, to@);
            out.push(s[i]);
            assert(before + (seq![s@[i as int]] + rest) =~= out@ + rest);
            i = i + 1;
        }
    }
    assert(out@ =~= out@ + replace_from(s@, i as int, from@, to@));
    out
}

/// Replace every occurrence of the literal `from` by the literal `to`.
pub fn replace_str(s: &Vec<char>, from: &str, to: &str) -> (r: Vec<char>)
    requires
        from@.len() > 0,
    ensures
        r@ == replace_spec(s@, from@, to@),
{
    let f = chars_of(from);
    let t = chars_of(to);
    replace_all(s, &f, &t)
}

/// The views of a vector of character vectors.
pub open spec fn views(v: Seq<Vec<char>>) -> Seq<Seq<char>> {
    v.map_values(|x: Vec<char>| x@)
}

/// `str::split(c)`: the pieces between occurrences of `c`.
pub open spec fn split_spec(s: Seq<char>, c: char) -> Seq<Seq<char>>
    decreases s.len(),
{
    if s.len() == 0 {
        seq![seq![]]
    } else {
        let p = split_spec(s.drop_last(), c);
        if s.last() == c {
            p.push(seq![])
        } else {
            p.update(p.len() - 1, p.last().push(s.last()))
        }
    }
}

pub proof fn lemma_split_nonempty(s: Seq<char>, c: char)
    ensures
        split_spec(s, c).len() >= 1,
    decreases s.len(),
{
    if s.len() > 0 {
        lemma_split_nonempty(s.drop_last(), c);
    }
}

pub fn split_char(s: &Vec<char>, c: char) -> (r: Vec<Vec<char>>)
    ensures
        views(r@) == split_spec(s@, c),
{
    let mut parts: Vec<Vec<char>> = Vec::new();
    let mut cur: Vec<char> = Vec::new();
    let mut i: usize = 0;
    while i < s.len()
        invariant
            i <= s.len(),
            views(parts@).push(cur@) == split_spec(s@.take(i as int), c),
        decreases s.len() - i,
    {
        let ghost p = split_spec(s@.take(i as int), c);
        assert(s@.take(i + 1).drop_last() =~= s@.take(i as int));
        if s[i] == c {
            let done = cur;
            cur = Vec::new();
            parts.push(done);
            assert(views(parts@) =~= views(parts@.drop_last()).push(done@));
            assert(views(parts@).push(cur@) =~= p.push(seq![]));
        } else {
            cur.push(s[i]);
            assert(views(parts@).push(cur@) =~= p.update(p.len() - 1, p.last().push(s@[i as int])));
        }
        i = i + 1;
    }
    assert(s@.take(s@.len() as int) =~= s@);
    let ghost before = parts@;
    parts.push(cur);
    assert(views(parts@) =~= views(before).push(cur@));
    parts
}

/// `str::split_inclusive('\n')`: lines with their terminators, no empty tail.
pub open spec fn split_lines_incl(s: Seq<char>) -> Seq<Seq<char>>
    decreases s.len(),
{
    if s.len() == 0 {
        seq![]
    } else {
        let p = split_lines_incl(s.drop_last());
        if p.len() > 0 && p.last().last() != '\n' {
            p.update(p.len() - 1, p.last().push(s.last()))
        } else {
            p.push(seq![s.last()])
        }
    }
}

pub proof fn lemma_split_lines_incl_pieces(s: Seq<char>)
    ensures
        forall|k: int|
            0 <= k < split_lines_incl(s).len() ==> #[trigger] split_lines_incl(s)[k].len() > 0,
    decreases s.len(),
{
    if s.len() > 0 {
        let p = split_lines_incl(s.drop_last());
        lemma_split_lines_incl_pieces(s.drop_last());
        assert forall|k: int| 0 <= k < split_lines_incl(s).len() implies #[trigger] split_lines_incl(
            s,
        )[k].len() > 0 by {
            if k < p.len() {
                assert(p[k].len() > 0);
            }
        }
    }
}

pub fn split_inclusive_nl(s: &Vec<char>) -> (r: Vec<Vec<char>>)
    ensures
        views(r@) == split_lines_incl(s@),
{
    let mut parts: Vec<Vec<char>> = Vec::new();
    let mut cur: Vec<char> = Vec::new();
    let mut i: usize = 0;
    while i < s.len()
        invariant
            i <= s.len(),
            cur@.len() > 0 ==> cur@.last() != '\n',
            forall|k: int|
                0 <= k < parts@.len() ==> (#[trigger] parts@[k])@.len() > 0 && parts@[k]@.last()
                    == '\n',
            cur@.len() == 0 ==> views(parts@) == split_lines_incl(s@.take(i as int)),
            cur@.len() > 0 ==> views(parts@).push(cur@) == split_lines_incl(s@.take(i as int)),
        decreases s.len() - i,
    {
        let ghost p = split_lines_incl(s@.take(i as int));
        assert(s@.take(i + 1).drop_last() =~= s@.take(i as int));
        let ghost had = cur@.len() > 0;
        cur.push(s[i]);
        proof {
            if had {
                assert(views(parts@).push(cur@) =~= p.update(p.len() - 1, p.last().push(s@[i as int])));
            } else {
                assert(cur@ =~= seq![s@[i as int]]);
                assert(views(parts@).push(cur@) =~= p.push(seq![s@[i as int]]));
            }
        }
        if s[i] == '\n' {
            let done = cur;
            cur = Vec::new();
            parts.push(done);
            assert(views(parts@) =~= views(parts@.drop_last()).push(done@));
        }
        i = i + 1;
    }
    assert(s@.take(s@.len() as int) =~= s@);
    if cur.len() > 0 {
        let ghost before = parts@;
        parts.push(cur);
        assert(views(parts@) =~= views(before).push(cur@));
    }
    parts
}

/// `str::lines` applied to one piece of `split_inclusive('\n')`: the
/// terminating `\n` (and a `\r` before it) removed.
pub open spec fn strip_line_end(x: Seq<char>) -> Seq<char> {
    if x.len() > 0 && x.last() == '\n' {
        let y = x.drop_last();
        if y.len() > 0 && y.last() == '\r' {
            y.drop_last()
        } else {
            y
        }
    } else {
        x
    }
}

/// `str::lines`.
pub open spec fn lines_spec(s: Seq<char>) -> Seq<Seq<char>> {
    split_lines_incl(s).map_values(|x: Seq<char>| strip_line_end(x))
}

pub fn strip_line_end_exec(x: &Vec<char>) -> (r: Vec<char>)
    ensures
        r@ == strip_line_end(x@),
{
    let mut n = x.len();
    if n > 0 && x[n - 1] == '\n' {
        n = n - 1;
        if n > 0 && x[n - 1] == '\r' {
            n = n - 1;
        }
    }
    let r = slice(x, 0, n);
    assert(r@ =~= strip_line_end(x@));
    r
}

pub fn lines(s: &Vec<char>) -> (r: Vec<Vec<char>>)
    ensures
        views(r@) == lines_spec(s@),
{
    let pieces = split_inclusive_nl(s);
    let mut out: Vec<Vec<char>> = Vec::new();
    let mut i: usize = 0;
    while i < pieces.len()
        invariant
            i <= pieces.len(),
            views(pieces@) == split_lines_incl(s@),
            out@.len() == i,
            forall|k: int| 0 <= k < i ==> (#[trigger] out@[k])@ == strip_line_end(pieces@[k]@),
        decreases pieces.len() - i,
    {
        let l = strip_line_end_exec(&pieces[i]);
        out.push(l);
        i = i + 1;
    }
    assert(views(out@) =~= lines_spec(s@)) by {
        assert forall|k: int| 0 <= k < out@.len() implies #[trigger] views(out@)[k] == lines_spec(
            s@,
        )[k] by {
            assert(views(pieces@)[k] == pieces@[k]@);
        }
    }
    out
}

/// `str::split_whitespace`: the maximal runs of non-whitespace.
pub open spec fn words_spec(s: Seq<char>) -> Seq<Seq<char>>
    decreases s.len(),
{
    if s.len() == 0 {
        seq![]
    } else {
        let p = words_spec(s.drop_last());
        if is_ws(s.last()) {
            p
        } else if s.len() >= 2 && !is_ws(s[s.len() - 2]) && p.len() > 0 {
            p.update(p.len() - 1, p.last().push(s.last()))
        } else {
            p.push(seq![s.last()])
        }
    }
}

pub fn words(s: &Vec<char>) -> (r: Vec<Vec<char>>)
    ensures
        views(r@) == words_spec(s@),
{
    let mut parts: Vec<Vec<char>> = Vec::new();
    let mut cur: Vec<char> = Vec::new();
    let mut i: usize = 0;
    while i < s.len()
        invariant
            i <= s.len(),
            cur@.len() > 0 ==> i > 0 && !is_ws(s@[i - 1]),
            cur@.len() == 0 ==> (i > 0 ==> is_ws(s@[i - 1])),
            cur@.len() == 0 ==> views(parts@) == words_spec(s@.take(i as int)),
            cur@.len() > 0 ==> views(parts@).push(cur@) == words_spec(s@.take(i as int)),
        decreases s.len() - i,
    {
        let ghost p = words_spec(s@.take(i as int));
        assert(s@.take(i + 1).drop_last() =~= s@.take(i as int));
        if is_whitespace(s[i]) {
            if cur.len() > 0 {
                let done = cur;
                cur = Vec::new();
                parts.push(done);
                assert(views(parts@) =~= views(parts@.drop_last()).push(done@));
            }
        } else {
            let ghost had = cur@.len() > 0;
            cur.push(s[i]);
            proof {
                if had {
                    assert(s@.take(i + 1)[i - 1] == s@[i - 1]);
                    assert(views(parts@).push(cur@) =~= p.update(
                        p.len() - 1,
                        p.last().push(s@[i as int]),
                    ));
                } else {
                    if i > 0 {
                        assert(s@.take(i + 1)[i - 1] == s@[i - 1]);
                    }
                    assert(cur@ =~= seq![s@[i as int]]);
                    assert(views(parts@).push(cur@) =~= p.push(seq![s@[i as int]]));
                }
            }
        }
        i = i + 1;
    }
    assert(s@.take(s@.len() as int) =~= s@);
    if cur.len() > 0 {
        let ghost before = parts@;
        parts.push(cur);
        assert(views(parts@) =~= views(before).push(cur@));
    }
    parts
}

/// `char::to_ascii_lowercase`.
pub open spec fn ascii_lower(c: char) -> char {
    if 'A' <= c <= 'Z' {
        ((c as int) + 32) as char
    } else {
        c
    }
}

pub open spec fn ascii_lower_seq(s: Seq<char>) -> Seq<char> {
    s.map_values(|c: char| ascii_lower(c))
}

pub fn to_ascii_lower_char(c: char) -> (r: char)
    ensures
        r == ascii_lower(c),
{
    if 'A' <= c && c <= 'Z' {
        let u = (c as u32 + 32) as u8;
        u as char
    } else {
        c
    }
}

pub fn to_ascii_lower(s: &Vec<char>) -> (r: Vec<char>)
    ensures
        r@ == ascii_lower_seq(s@),
{
    let mut out: Vec<char> = Vec::new();
    let mut i: usize = 0;
    while i < s.len()
        invariant
            i <= s.len(),
            out@ == ascii_lower_seq(s@.take(i as int)),
        decreases s.len() - i,
    {
        out.push(to_ascii_lower_char(s[i]));
        i = i + 1;
        assert(out@ =~= ascii_lower_seq(s@.take(i as int)));
    }
    assert(s@.take(s@.len() as int) =~= s@);
    out
}

/// The decimal digit for `d < 10`.
pub open spec fn digit_char(d: nat) -> char {
    if d == 0 {
        '0'
    } else if d == 1 {
        '1'
    } else if d == 2 {
        '2'
    } else if d == 3 {
        '3'
    } else if d == 4 {
        '4'
    } else if d == 5 {
        '5'
    } else if d == 6 {
        '6'
    } else if d == 7 {
        '7'
    } else if d == 8 {
        '8'
    } else {
        '9'
    }
}

/// `usize`'s `Display`: decimal digits without leading zeros.
pub open spec fn dec_spec(n: nat) -> Seq<char>
    decreases n,
{
    if n < 10 {
        seq![digit_char(n)]
    } else {
        dec_spec(n / 10).push(digit_char(n % 10))
    }
}

fn digit_of(d: u128) -> (c: char)
    requires
        d < 10,
    ensures
        c == digit_char(d as nat),
{
    if d == 0 {
        '0'
    } else if d == 1 {
        '1'
    } else if d == 2 {
        '2'
    } else if d == 3 {
        '3'
    } else if d == 4 {
        '4'
    } else if d == 5 {
        '5'
    } else if d == 6 {
        '6'
    } else if d == 7 {
        '7'
    } else if d == 8 {
        '8'
    } else {
        '9'
    }
}

/// Append the decimal form of `n`.
pub fn push_dec(out: &mut Vec<char>, n: u128)
    ensures
        final(out)@ == old(out)@ + dec_spec(n as nat),
    decreases n,
{
    let ghost o = out@;
    if n < 10 {
        out.push(digit_of(n));
        assert(out@ =~= o + dec_spec(n as nat));
    } else {
        push_dec(out, n / 10);
        out.push(digit_of(n % 10));
        assert(out@ =~= o + dec_spec(n as nat));
    }
}


/// `str::split` with a character predicate: the pieces between characters
/// of `cls`.
pub open spec fn split_class_spec(s: Seq<char>, cls: CharClass) -> Seq<Seq<char>>
    decreases s.len(),
{
    if s.len() == 0 {
        seq![seq![]]
    } else {
        let p = split_class_spec(s.drop_last(), cls);
        if in_class(cls, s.last()) {
            p.push(seq![])
        } else {
            p.update(p.len() - 1, p.last().push(s.last()))
        }
    }
}

pub proof fn lemma_split_class_nonempty(s: Seq<char>, cls: CharClass)
    ensures
        split_class_spec(s, cls).len() >= 1,
    decreases s.len(),
{
    if s.len() > 0 {
        lemma_split_class_nonempty(s.drop_last(), cls);
    }
}

pub fn split_class(s: &Vec<char>, cls: CharClass) -> (r: Vec<Vec<char>>)
    ensures
        views(r@) == split_class_spec(s@, cls),
{
    let mut parts: Vec<Vec<char>> = Vec::new();
    let mut cur: Vec<char> = Vec::new();
    let mut i: usize = 0;
    while i < s.len()
        invariant
            i <= s.len(),
            views(parts@).push(cur@) == split_class_spec(s@.take(i as int), cls),
        decreases s.len() - i,
    {
        let ghost p = split_class_spec(s@.take(i as int), cls);
        assert(s@.take(i + 1).drop_last() =~= s@.take(i as int));
        if class_has(cls, s[i]) {
            let done = cur;
            cur = Vec::new();
            parts.push(done);
            assert(views(parts@) =~= views(parts@.drop_last()).push(done@));
            assert(views(parts@).push(cur@) =~= p.push(seq![]));
        } else {
            cur.push(s[i]);
            assert(views(parts@).push(cur@) =~= p.update(p.len() - 1, p.last().push(s@[i as int])));
        }
        i = i + 1;
    }
    assert(s@.take(s@.len() as int) =~= s@);
    let ghost before = parts@;
    parts.push(cur);
    assert(views(parts@) =~= views(before).push(cur@));
    parts
}

/// `str::split_once(c)`: the text before the first `c` and after it.
pub open spec fn split_once_spec(s: Seq<char>, c: char) -> Option<(Seq<char>, Seq<char>)> {
    match find_from(s, 0, seq![c]) {
        Some(i) => Some((s.take(i), s.skip(i + 1))),
        None => None,
    }
}

pub fn split_once(s: &Vec<char>, c: char) -> (r: Option<(Vec<char>, Vec<char>)>)
    ensures
        match r {
            Some((a, b)) => split_once_spec(s@, c) == Some((a@, b@)),
            None => split_once_spec(s@, c) is None,
        },
{
    let pat = vec![c];
    assert(pat@ =~= seq![c]);
    match find(s, &pat, 0) {
        Some(i) => {
            proof {
                lemma_find_from_props(s@, 0, seq![c]);
            }
            let a = slice(s, 0, i);
            let b = slice(s, i + 1, s.len());
            assert(a@ =~= s@.take(i as int));
            assert(b@ =~= s@.skip(i + 1));
            Some((a, b))
        },
        None => None,
    }
}

pub open spec fn is_digit(c: char) -> bool {
    '0' <= c && c <= '9'
}

pub open spec fn digit_val(c: char) -> nat {
    (c as int - '0' as int) as nat
}

/// The number a string of decimal digits denotes.
pub open spec fn digits_val(d: Seq<char>) -> nat
    decreases d.len(),
{
    if d.len() == 0 {
        0
    } else {
        digits_val(d.drop_last()) * 10 + digit_val(d.last())
    }
}

pub open spec fn all_digits(d: Seq<char>) -> bool {
    forall|i: int| 0 <= i < d.len() ==> is_digit(#[trigger] d[i])
}

/// `str::parse::<usize>`: an optional `+`, then one or more decimal
/// digits whose value fits in `usize`.
pub open spec fn parse_usize_spec(s: Seq<char>) -> Option<nat> {
    let d = if s.len() > 0 && s[0] == '+' {
        s.skip(1)
    } else {
        s
    };
    if d.len() > 0 && all_digits(d) && digits_val(d) <= usize::MAX {
        Some(digits_val(d))
    } else {
        None
    }
}

pub fn parse_usize(s: &Vec<char>) -> (r: Option<usize>)
    ensures
        match r {
            Some(n) => parse_usize_spec(s@) == Some(n as nat),
            None => parse_usize_spec(s@) is None,
        },
{
    let start: usize = if s.len() > 0 && s[0] == '+' { 1 } else { 0 };
    let ghost d = if s@.len() > 0 && s@[0] == '+' {
        s@.skip(1)
    } else {
        s@
    };
    assert(d =~= s@.skip(start as int));
    if start >= s.len() {
        return None;
    }
    let mut acc: usize = 0;
    let mut over = false;
    let mut i: usize = start;
    while i < s.len()
        invariant
            start <= i <= s.len(),
            d == s@.skip(start as int),
            d == (if s@.len() > 0 && s@[0] == '+' {
                s@.skip(1)
            } else {
                s@
            }),
            forall|j: int| 0 <= j < i - start ==> is_digit(#[trigger] d[j]),
            !over ==> acc == digits_val(d.take(i - start)),
            over ==> digits_val(d.take(i - start)) > usize::MAX,
        decreases s.len() - i,
    {
        let c = s[i];
        if !('0' <= c && c <= '9') {
            assert(!is_digit(d[i - start]));
            assert(!all_digits(d));
            return None;
        }
        let dv: usize = (c as u32 - '0' as u32) as usize;
        let ghost k = (i - start) as int;
        assert(d.take(k + 1).drop_last() =~= d.take(k));
        assert(d.take(k + 1).last() == c);
        let ghost prev = digits_val(d.take(k));
        assert(digits_val(d.take(k + 1)) == prev * 10 + digit_val(c));
        assert(digit_val(c) == dv);
        if !over {
            if acc > (usize::MAX - dv) / 10 {
                assert(prev * 10 + dv > usize::MAX) by (nonlinear_arith)
                    requires
                        prev == acc,
                        acc > (usize::MAX - dv) / 10,
                        dv <= 9,
                ;
                over = true;
            } else {
                assert(acc * 10 + dv <= usize::MAX) by (nonlinear_arith)
                    requires
                        acc <= (usize::MAX - dv) / 10,
                        dv <= 9,
                ;
                acc = acc * 10 + dv;
            }
        } else {
            assert(prev * 10 + dv >= prev) by (nonlinear_arith)
                requires
                    prev >= 0,
                    dv >= 0,
            ;
        }
        i = i + 1;
    }
    assert(d.take(d.len() as int) =~= d);
    assert(all_digits(d));
    assert(d.len() > 0);
    if over {
        None
    } else {
        Some(acc)
    }
}

} // verus!
