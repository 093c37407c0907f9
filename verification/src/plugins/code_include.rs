//! Extended fenced-code info strings, and file / region includes.
//!
//! A block fence is ```` ```<lang> [attr=value ...] ````, where each
//! attribute is either a bare flag or `key=value` (the value may be quoted
//! with `"..."`). Recognized attributes: `title`, `file`, `lines`,
//! `region`, `linenums` (bare or `"start=N"`), `no-copy`, `hl_lines`.
use vstd::prelude::*;
use crate::error::FarolError;
use crate::text::{
    chars_of, eq_vec, in_class, is_whitespace, is_ws, lines, lines_spec, parse_usize,
    parse_usize_spec, push_all, push_str, slice, split_char, split_class, split_class_spec,
    split_once, split_once_spec, split_spec, starts_with, starts_with_exec, string_from, trim_spec,
    trim_vec, views, CharClass, contains_seq, fwd_end, fwd_end_exec, lemma_fwd_end_bounds,
    trim_start_spec, push_range,
};
use crate::url::{file_name_spec, resolve_path_spec, resolve_relative};

verus! {

/// The attributes of one fenced code block.
#[derive(Debug, Clone, Default, PartialEq, Eq)]
pub struct CodeBlockAttrs {
    pub lang: String,
    pub title: Option<String>,
    pub file: Option<String>,
    pub lines: Option<Vec<(usize, usize)>>,
    pub region: Option<String>,
    pub linenums: bool,
    pub linenums_start: usize,
    pub hl_lines: Vec<usize>,
    pub no_copy: bool,
}

/// What a `CodeBlockAttrs` holds, as plain values.
pub struct AttrsModel {
    pub lang: Seq<char>,
    pub title: Option<Seq<char>>,
    pub file: Option<Seq<char>>,
    pub lines: Option<Seq<(usize, usize)>>,
    pub region: Option<Seq<char>>,
    pub linenums: bool,
    pub linenums_start: usize,
    pub hl_lines: Seq<usize>,
    pub no_copy: bool,
}

pub open spec fn opt_str(o: Option<String>) -> Option<Seq<char>> {
    match o {
        Some(s) => Some(s@),
        None => None,
    }
}

pub open spec fn opt_vec<A>(o: Option<Vec<A>>) -> Option<Seq<A>> {
    match o {
        Some(v) => Some(v@),
        None => None,
    }
}

impl View for CodeBlockAttrs {
    type V = AttrsModel;

    open spec fn view(&self) -> AttrsModel {
        AttrsModel {
            lang: self.lang@,
            title: opt_str(self.title),
            file: opt_str(self.file),
            lines: opt_vec(self.lines),
            region: opt_str(self.region),
            linenums: self.linenums,
            linenums_start: self.linenums_start,
            hl_lines: self.hl_lines@,
            no_copy: self.no_copy,
        }
    }
}

/// Tokens finished so far, the token being read, and whether a `"` is open.
pub open spec fn tok_acc(s: Seq<char>) -> (Seq<Seq<char>>, Seq<char>, bool)
    decreases s.len(),
{
    if s.len() == 0 {
        (seq![], seq![], false)
    } else {
        let (out, buf, q) = tok_acc(s.drop_last());
        let c = s.last();
        if c == '"' {
            (out, buf.push(c), !q)
        } else if is_ws(c) && !q {
            if buf.len() > 0 {
                (out.push(buf), seq![], q)
            } else {
                (out, buf, q)
            }
        } else {
            (out, buf.push(c), q)
        }
    }
}

/// Whitespace-separated tokens; whitespace inside `"..."` does not split,
/// so `title="hello world"` stays one token (quotes kept).
pub open spec fn tokenize_spec(s: Seq<char>) -> Seq<Seq<char>> {
    let (out, buf, _q) = tok_acc(s);
    if buf.len() > 0 {
        out.push(buf)
    } else {
        out
    }
}

/// A value without its surrounding double quotes, when it has both.
pub open spec fn unquote_spec(s: Seq<char>) -> Seq<char> {
    if s.len() >= 2 && s[0] == '"' && s.last() == '"' {
        s.subrange(1, s.len() - 1)
    } else {
        s
    }
}

/// One comma-separated part of a `lines` value: `a-b` or `n` (as `n-n`).
pub open spec fn range_of(part0: Seq<char>) -> Option<(usize, usize)> {
    let part = trim_spec(part0, CharClass::Ws);
    match split_once_spec(part, '-') {
        Some((a, b)) => match (
            parse_usize_spec(trim_spec(a, CharClass::Ws)),
            parse_usize_spec(trim_spec(b, CharClass::Ws)),
        ) {
            (Some(x), Some(y)) => Some((x as usize, y as usize)),
            _ => None,
        },
        None => match parse_usize_spec(part) {
            Some(n) => Some((n as usize, n as usize)),
            None => None,
        },
    }
}

/// The ranges of the parts that parse, in order.
pub open spec fn ranges_of(parts: Seq<Seq<char>>) -> Seq<(usize, usize)>
    decreases parts.len(),
{
    if parts.len() == 0 {
        seq![]
    } else {
        let r = ranges_of(parts.drop_last());
        match range_of(parts.last()) {
            Some(x) => r.push(x),
            None => r,
        }
    }
}

/// `lines="10-25,40"` parsed: parts that do not parse are skipped.
pub open spec fn parse_line_ranges_spec(s: Seq<char>) -> Seq<(usize, usize)> {
    ranges_of(split_spec(s, ','))
}

/// `a, a+1, ..., b` (nothing when `a > b`).
pub open spec fn span(a: usize, b: usize) -> Seq<usize> {
    Seq::new(if a <= b { (b - a + 1) as nat } else { 0 }, |i: int| (a + i) as usize)
}

/// The line numbers one part of an `hl_lines` value stands for.
pub open spec fn hl_part(part0: Seq<char>) -> Seq<usize> {
    let part = trim_spec(part0, CharClass::Ws);
    if part.len() == 0 {
        seq![]
    } else {
        match split_once_spec(part, '-') {
            Some((a, b)) => match (parse_usize_spec(a), parse_usize_spec(b)) {
                (Some(x), Some(y)) => span(x as usize, y as usize),
                _ => seq![],
            },
            None => match parse_usize_spec(part) {
                Some(n) => seq![n as usize],
                None => seq![],
            },
        }
    }
}

pub open spec fn hl_parts(parts: Seq<Seq<char>>) -> Seq<usize>
    decreases parts.len(),
{
    if parts.len() == 0 {
        seq![]
    } else {
        hl_parts(parts.drop_last()) + hl_part(parts.last())
    }
}

/// `hl_lines="1 3-5"` parsed: parts separated by whitespace or commas,
/// ranges expanded.
pub open spec fn parse_hl_lines_spec(s: Seq<char>) -> Seq<usize> {
    hl_parts(split_class_spec(s, CharClass::WsOr(',')))
}

/// The attributes before any token is applied.
pub open spec fn base_model(lang: Seq<char>) -> AttrsModel {
    AttrsModel {
        lang: lang,
        title: None,
        file: None,
        lines: None,
        region: None,
        linenums: false,
        linenums_start: 1,
        hl_lines: seq![],
        no_copy: false,
    }
}

/// The attributes after one token.
pub open spec fn apply_tok(a: AttrsModel, tok: Seq<char>) -> AttrsModel {
    match split_once_spec(tok, '=') {
        None => if tok == "linenums"@ {
            AttrsModel { linenums: true, ..a }
        } else if tok == "no-copy"@ {
            AttrsModel { no_copy: true, ..a }
        } else {
            a
        },
        Some((k, v0)) => {
            let v = unquote_spec(v0);
            if k == "title"@ {
                AttrsModel { title: Some(v), ..a }
            } else if k == "file"@ {
                AttrsModel { file: Some(v), ..a }
            } else if k == "lines"@ {
                AttrsModel { lines: Some(parse_line_ranges_spec(v)), ..a }
            } else if k == "region"@ {
                AttrsModel { region: Some(v), ..a }
            } else if k == "linenums"@ {
                if starts_with(v, "start="@) && parse_usize_spec(v.skip(6)) is Some {
                    AttrsModel {
                        linenums: true,
                        linenums_start: parse_usize_spec(v.skip(6))->0 as usize,
                        ..a
                    }
                } else {
                    AttrsModel { linenums: true, ..a }
                }
            } else if k == "hl_lines"@ {
                AttrsModel { hl_lines: parse_hl_lines_spec(v), ..a }
            } else {
                a
            }
        },
    }
}

pub open spec fn apply_toks(a: AttrsModel, toks: Seq<Seq<char>>) -> AttrsModel
    decreases toks.len(),
{
    if toks.len() == 0 {
        a
    } else {
        apply_tok(apply_toks(a, toks.drop_last()), toks.last())
    }
}

/// An info string parsed: a first token without `=` is the language, the
/// others are applied in order (later ones win).
pub open spec fn parse_spec(info: Seq<char>) -> AttrsModel {
    let toks = tokenize_spec(info);
    if toks.len() > 0 && !contains_seq(toks[0], "="@) {
        apply_toks(base_model(toks[0]), toks.skip(1))
    } else {
        apply_toks(base_model(seq![]), toks)
    }
}

/// The title a block shows: an explicit one, or (for none or `auto`) the
/// file name of `file`.
pub open spec fn effective_title_spec(a: AttrsModel) -> Option<Seq<char>> {
    match a.title {
        Some(t) => if t == "auto"@ {
            match a.file {
                Some(f) => file_name_spec(f),
                None => None,
            }
        } else {
            Some(t)
        },
        None => match a.file {
            Some(f) => file_name_spec(f),
            None => None,
        },
    }
}


/// Split the info string into whitespace-separated tokens, keeping a
/// double-quoted value (quotes included) in one token.
fn tokenize(s: &Vec<char>) -> (r: Vec<Vec<char>>)
    ensures
        views(r@) == tokenize_spec(s@),
{
    let mut out: Vec<Vec<char>> = Vec::new();
    let mut buf: Vec<char> = Vec::new();
    let mut in_quote = false;
    let mut i: usize = 0;
    while i < s.len()
        invariant
            i <= s.len(),
            (views(out@), buf@, in_quote) == tok_acc(s@.take(i as int)),
        decreases s.len() - i,
    {
        assert(s@.take(i + 1).drop_last() =~= s@.take(i as int));
        let c = s[i];
        if c == '"' {
            in_quote = !in_quote;
            buf.push(c);
        } else if is_whitespace(c) && !in_quote {
            if buf.len() > 0 {
                let done = buf;
                buf = Vec::new();
                let ghost before = out@;
                out.push(done);
                assert(views(out@) =~= views(before).push(done@));
            }
        } else {
            buf.push(c);
        }
        i = i + 1;
    }
    assert(s@.take(s@.len() as int) =~= s@);
    if buf.len() > 0 {
        let ghost before = out@;
        out.push(buf);
        assert(views(out@) =~= views(before).push(buf@));
    }
    out
}

fn unquote(s: &Vec<char>) -> (r: Vec<char>)
    ensures
        r@ == unquote_spec(s@),
{
    let n = s.len();
    if n >= 2 && s[0] == '"' && s[n - 1] == '"' {
        slice(s, 1, n - 1)
    } else {
        slice(s, 0, n)
    }
}

fn range_of_exec(part0: &Vec<char>) -> (r: Option<(usize, usize)>)
    ensures
        r == range_of(part0@),
{
    let part = trim_vec(part0, CharClass::Ws);
    match split_once(&part, '-') {
        Some((a, b)) => {
            let x = parse_usize(&trim_vec(&a, CharClass::Ws));
            let y = parse_usize(&trim_vec(&b, CharClass::Ws));
            match (x, y) {
                (Some(x), Some(y)) => Some((x, y)),
                _ => None,
            }
        },
        None => match parse_usize(&part) {
            Some(n) => Some((n, n)),
            None => None,
        },
    }
}

/// `lines="10-25,40"` parsed into inclusive ranges; parts that do not
/// parse are skipped.
fn parse_line_ranges(s: &Vec<char>) -> (r: Vec<(usize, usize)>)
    ensures
        r@ == parse_line_ranges_spec(s@),
{
    let parts = split_char(s, ',');
    let mut out: Vec<(usize, usize)> = Vec::new();
    let mut i: usize = 0;
    while i < parts.len()
        invariant
            i <= parts.len(),
            out@ == ranges_of(views(parts@).take(i as int)),
        decreases parts.len() - i,
    {
        assert(views(parts@).take(i + 1).drop_last() =~= views(parts@).take(i as int));
        assert(views(parts@).take(i + 1).last() == parts@[i as int]@);
        match range_of_exec(&parts[i]) {
            Some(x) => out.push(x),
            None => {},
        }
        i = i + 1;
    }
    assert(views(parts@).take(parts@.len() as int) =~= views(parts@));
    out
}

fn push_span(out: &mut Vec<usize>, a: usize, b: usize)
    ensures
        final(out)@ == old(out)@ + span(a, b),
{
    let ghost o = old(out)@;
    if a > b {
        assert(span(a, b) =~= Seq::<usize>::empty());
        assert(out@ =~= o + span(a, b));
        return;
    }
    let mut n = a;
    loop
        invariant_except_break
            a <= n <= b,
            out@ == o + span(a, b).take(n - a),
        ensures
            out@ == o + span(a, b),
        decreases b - n,
    {
        out.push(n);
        assert(span(a, b).take(n - a + 1) =~= span(a, b).take(n - a).push(n));
        if n == b {
            assert(span(a, b).take(n - a + 1) =~= span(a, b));
            break;
        }
        n = n + 1;
    }
}

/// `hl_lines="1 3-5"` parsed into line numbers, ranges expanded.
fn parse_hl_lines(s: &Vec<char>) -> (r: Vec<usize>)
    ensures
        r@ == parse_hl_lines_spec(s@),
{
    let parts = split_class(s, CharClass::WsOr(','));
    let mut out: Vec<usize> = Vec::new();
    let mut i: usize = 0;
    while i < parts.len()
        invariant
            i <= parts.len(),
            out@ == hl_parts(views(parts@).take(i as int)),
        decreases parts.len() - i,
    {
        assert(views(parts@).take(i + 1).drop_last() =~= views(parts@).take(i as int));
        assert(views(parts@).take(i + 1).last() == parts@[i as int]@);
        let ghost before = out@;
        let part = trim_vec(&parts[i], CharClass::Ws);
        if part.len() > 0 {
            match split_once(&part, '-') {
                Some((a, b)) => {
                    match (parse_usize(&a), parse_usize(&b)) {
                        (Some(x), Some(y)) => push_span(&mut out, x, y),
                        _ => {
                            assert(out@ =~= before + Seq::<usize>::empty());
                        },
                    }
                },
                None => match parse_usize(&part) {
                    Some(n) => {
                        out.push(n);
                        assert(out@ =~= before + seq![n]);
                    },
                    None => {
                        assert(out@ =~= before + Seq::<usize>::empty());
                    },
                },
            }
        } else {
            assert(out@ =~= before + Seq::<usize>::empty());
        }
        i = i + 1;
    }
    assert(views(parts@).take(parts@.len() as int) =~= views(parts@));
    out
}

fn lit_eq(v: &Vec<char>, lit: &str) -> (b: bool)
    ensures
        b == (v@ == lit@),
{
    eq_vec(v, &chars_of(lit))
}

impl CodeBlockAttrs {
    /// Apply one attribute token.
    fn apply(&mut self, tok: &Vec<char>)
        ensures
            final(self)@ == apply_tok(old(self)@, tok@),
    {
        match split_once(tok, '=') {
            None => {
                if lit_eq(tok, "linenums") {
                    self.linenums = true;
                } else if lit_eq(tok, "no-copy") {
                    self.no_copy = true;
                }
            },
            Some((k, v0)) => {
                let v = unquote(&v0);
                if lit_eq(&k, "title") {
                    self.title = Some(string_from(v));
                } else if lit_eq(&k, "file") {
                    self.file = Some(string_from(v));
                } else if lit_eq(&k, "lines") {
                    self.lines = Some(parse_line_ranges(&v));
                } else if lit_eq(&k, "region") {
                    self.region = Some(string_from(v));
                } else if lit_eq(&k, "linenums") {
                    self.linenums = true;
                    proof {
                        reveal_strlit("start=");
                    }
                    if starts_with_exec(&v, &chars_of("start=")) {
                        let rest = slice(&v, 6, v.len());
                        assert(rest@ =~= v@.skip(6));
                        match parse_usize(&rest) {
                            Some(n) => {
                                self.linenums_start = n;
                            },
                            None => {},
                        }
                    }
                } else if lit_eq(&k, "hl_lines") {
                    self.hl_lines = parse_hl_lines(&v);
                }
            },
        }
    }

    /// Parse a fence info string.
    pub fn parse(info_string: &str) -> (r: Self)
        ensures
            r@ == parse_spec(info_string@),
    {
        let toks = tokenize(&chars_of(info_string));
        let mut out = CodeBlockAttrs {
            lang: String::new(),
            title: None,
            file: None,
            lines: None,
            region: None,
            linenums: false,
            linenums_start: 1,
            hl_lines: Vec::new(),
            no_copy: false,
        };
        let mut first: usize = 0;
        proof {
            reveal_strlit("=");
        }
        if toks.len() > 0 && !crate::text::contains_exec(&toks[0], &chars_of("=")) {
            out.lang = string_from(slice(&toks[0], 0, toks[0].len()));
            first = 1;
        }
        let ghost tv = views(toks@);
        assert(first == 1 ==> tv[0] == toks@[0]@);
        let ghost m0 = out@;
        proof {
            let bm = base_model(if first == 1 { tv[0] } else { seq![] });
            assert(m0.hl_lines =~= bm.hl_lines);
            assert(m0.lang =~= bm.lang);
            assert(m0 == bm);
        }
        let mut i = first;
        while i < toks.len()
            invariant
                first <= i <= toks.len(),
                tv == views(toks@),
                out@ == apply_toks(m0, tv.subrange(first as int, i as int)),
            decreases toks.len() - i,
        {
            assert(tv.subrange(first as int, i + 1).drop_last() =~= tv.subrange(
                first as int,
                i as int,
            ));
            assert(tv.subrange(first as int, i + 1).last() == toks@[i as int]@);
            out.apply(&toks[i]);
            i = i + 1;
        }
        assert(tv.subrange(first as int, tv.len() as int) =~= tv.skip(first as int));
        assert(tv.skip(0) =~= tv);
        out
    }

    /// The title to show: explicit `title=` wins, `title=auto` or none
    /// falls back to the file name of `file=`.
    pub fn effective_title(&self) -> (r: Option<String>)
        ensures
            opt_str(r) == effective_title_spec(self@),
    {
        proof {
            reveal_strlit("auto");
        }
        match &self.title {
            Some(t) => {
                if lit_eq(&chars_of(t.as_str()), "auto") {
                    match &self.file {
                        Some(f) => basename(f),
                        None => None,
                    }
                } else {
                    Some(t.clone())
                }
            },
            None => match &self.file {
                Some(f) => basename(f),
                None => None,
            },
        }
    }
}

/// The file name of a path (`Path::file_name`).
fn basename(path: &String) -> (r: Option<String>)
    ensures
        opt_str(r) == file_name_spec(path@),
{
    match crate::url::file_name_of(&chars_of(path.as_str())) {
        Some(n) => Some(string_from(n)),
        None => None,
    }
}


/// Lines, each followed by a newline.
pub open spec fn lines_block(ls: Seq<Seq<char>>) -> Seq<char>
    decreases ls.len(),
{
    if ls.len() == 0 {
        seq![]
    } else {
        lines_block(ls.drop_last()) + ls.last() + seq!['\n']
    }
}

/// The 0-based slice `start-1 .. min(end, n)` that a 1-based inclusive
/// range selects among `n` lines.
pub open spec fn range_lo(r: (usize, usize)) -> int {
    if r.0 == 0 {
        0
    } else {
        r.0 - 1
    }
}

pub open spec fn range_hi(r: (usize, usize), n: int) -> int {
    if r.1 < n {
        r.1 as int
    } else {
        n
    }
}

/// Every range selects a slice that exists (a range whose start lies past
/// its end, after clamping, cannot be sliced).
pub open spec fn ranges_fit(n: int, ranges: Seq<(usize, usize)>) -> bool {
    forall|i: int| 0 <= i < ranges.len() ==> range_lo(#[trigger] ranges[i]) <= range_hi(ranges[i], n)
}

pub open spec fn extract_lines_spec(ls: Seq<Seq<char>>, ranges: Seq<(usize, usize)>) -> Seq<char>
    decreases ranges.len(),
{
    if ranges.len() == 0 {
        seq![]
    } else {
        let r = ranges.last();
        extract_lines_spec(ls, ranges.drop_last()) + lines_block(
            ls.subrange(range_lo(r), range_hi(r, ls.len() as int)),
        )
    }
}

/// The selected line ranges of `content`, each line newline-terminated.
pub fn extract_lines(content: &str, ranges: &[(usize, usize)]) -> (r: String)
    requires
        ranges_fit(lines_spec(content@).len() as int, ranges@),
    ensures
        r@ == extract_lines_spec(lines_spec(content@), ranges@),
{
    let ls = lines(&chars_of(content));
    let ghost lv = views(ls@);
    let mut out: Vec<char> = Vec::new();
    let mut i: usize = 0;
    while i < ranges.len()
        invariant
            i <= ranges.len(),
            lv == views(ls@),
            lv == lines_spec(content@),
            ranges_fit(lv.len() as int, ranges@),
            out@ == extract_lines_spec(lv, ranges@.take(i as int)),
        decreases ranges.len() - i,
    {
        let (start, end) = ranges[i];
        assert(ranges@.take(i + 1).drop_last() =~= ranges@.take(i as int));
        assert(ranges@.take(i + 1).last() == ranges@[i as int]);
        assert(range_lo(ranges@[i as int]) <= range_hi(ranges@[i as int], lv.len() as int));
        let s: usize = if start == 0 { 0 } else { start - 1 };
        let e: usize = if end < ls.len() { end } else { ls.len() };
        let ghost o = out@;
        let mut k = s;
        while k < e
            invariant
                s <= k <= e <= ls.len(),
                lv == views(ls@),
                out@ == o + lines_block(lv.subrange(s as int, k as int)),
            decreases e - k,
        {
            assert(lv.subrange(s as int, k + 1).drop_last() =~= lv.subrange(s as int, k as int));
            assert(lv[k as int] == ls@[k as int]@);
            push_all(&mut out, &ls[k]);
            out.push('\n');
            assert(out@ =~= o + lines_block(lv.subrange(s as int, k + 1)));
            k = k + 1;
        }
        i = i + 1;
    }
    assert(ranges@.take(ranges@.len() as int) =~= ranges@);
    string_from(out)
}

/// The character views of a list of string slices.
pub open spec fn strs(ps: Seq<&str>) -> Seq<Seq<char>> {
    ps.map_values(|p: &str| p@)
}

/// `s` starts with one of `tags`.
pub open spec fn any_starts(s: Seq<char>, tags: Seq<Seq<char>>) -> bool
    decreases tags.len(),
{
    tags.len() > 0 && (starts_with(s, tags.last()) || any_starts(s, tags.drop_last()))
}

/// What may follow a marker's name on its line: nothing, or the closer
/// of a block comment.
pub open spec fn closer_rest(x: Seq<char>) -> bool {
    x.len() == 0 || x == "-->"@ || x == "*/"@
}

/// The (trimmed) line is the marker `tag` itself: the tag, then at most
/// blanks and a comment closer. `# region: inner` is no marker of `inn`.
pub open spec fn marks(t: Seq<char>, tag: Seq<char>) -> bool {
    starts_with(t, tag) && closer_rest(trim_spec(t.skip(tag.len() as int), CharClass::Ws))
}

/// The line is one of the marker lines `tags`.
pub open spec fn any_marks(t: Seq<char>, tags: Seq<Seq<char>>) -> bool
    decreases tags.len(),
{
    tags.len() > 0 && (marks(t, tags.last()) || any_marks(t, tags.drop_last()))
}

/// `{p} {word}` for each comment prefix `p`, then `tail`.
pub open spec fn tags_of(ps: Seq<Seq<char>>, word: Seq<char>, tail: Seq<char>) -> Seq<Seq<char>> {
    ps.map_values(|p: Seq<char>| p + seq![' '] + word + tail)
}

/// A line that starts a region or ends one, for any name.
pub open spec fn is_marker_spec(line: Seq<char>, ps: Seq<Seq<char>>) -> bool {
    any_starts(line, tags_of(ps, "region:"@, seq![])) || any_starts(
        line,
        tags_of(ps, "endregion:"@, seq![]),
    )
}

/// Region scan state: 0 before the start marker, 1 inside, 2 after the end
/// marker; with the lines kept so far.
pub open spec fn region_acc(ls: Seq<Seq<char>>, name: Seq<char>, ps: Seq<Seq<char>>) -> (
    int,
    Seq<char>,
)
    decreases ls.len(),
{
    if ls.len() == 0 {
        (0, seq![])
    } else {
        let (k, out) = region_acc(ls.drop_last(), name, ps);
        let line = ls.last();
        let t = trim_spec(line, CharClass::Ws);
        if k == 0 {
            if any_marks(t, tags_of(ps, "region: "@, name)) {
                (1, out)
            } else {
                (0, out)
            }
        } else if k == 1 {
            if any_marks(t, tags_of(ps, "endregion: "@, name)) {
                (2, out)
            } else if is_marker_spec(t, ps) {
                (1, out)
            } else {
                (1, out + line + seq!['\n'])
            }
        } else {
            (k, out)
        }
    }
}

/// The lines between `{p} region: name` and `{p} endregion: name` (or the
/// end), without nested marker lines; nothing when the region never starts.
pub open spec fn extract_region_spec(content: Seq<char>, name: Seq<char>, ps: Seq<Seq<char>>) -> Option<
    Seq<char>,
> {
    let (k, out) = region_acc(lines_spec(content), name, ps);
    if k == 0 {
        None
    } else {
        Some(out)
    }
}

/// The tags `{p} {word}{tail}` for each prefix.
fn make_tags(ps: &[&'static str], word: &str, tail: &Vec<char>) -> (r: Vec<Vec<char>>)
    ensures
        views(r@) == tags_of(strs(ps@), word@, tail@),
{
    let mut out: Vec<Vec<char>> = Vec::new();
    let mut i: usize = 0;
    while i < ps.len()
        invariant
            i <= ps.len(),
            views(out@) == tags_of(strs(ps@), word@, tail@).take(i as int),
        decreases ps.len() - i,
    {
        let mut t: Vec<char> = chars_of(ps[i]);
        t.push(' ');
        push_str(&mut t, word);
        push_all(&mut t, tail);
        let ghost before = out@;
        assert(strs(ps@)[i as int] == ps@[i as int]@);
        assert(t@ =~= ps@[i as int]@ + seq![' '] + word@ + tail@);
        out.push(t);
        assert(views(out@) =~= views(before).push(t@));
        assert(views(out@) =~= tags_of(strs(ps@), word@, tail@).take(i + 1));
        i = i + 1;
    }
    assert(tags_of(strs(ps@), word@, tail@).take(ps@.len() as int) =~= tags_of(strs(ps@), word@, tail@));
    out
}

fn marks_exec(t: &Vec<char>, tag: &Vec<char>) -> (b: bool)
    ensures
        b == marks(t@, tag@),
{
    if !starts_with_exec(t, tag) {
        return false;
    }
    let tail = slice(t, tag.len(), t.len());
    assert(tail@ =~= t@.skip(tag@.len() as int));
    let rest = trim_vec(&tail, CharClass::Ws);
    proof {
        reveal_strlit("-->");
        reveal_strlit("*/");
    }
    rest.len() == 0 || eq_vec(&rest, &chars_of("-->")) || eq_vec(&rest, &chars_of("*/"))
}

fn any_marks_exec(s: &Vec<char>, tags: &Vec<Vec<char>>) -> (b: bool)
    ensures
        b == any_marks(s@, views(tags@)),
{
    let mut i: usize = 0;
    let mut found = false;
    while i < tags.len()
        invariant
            i <= tags.len(),
            found == any_marks(s@, views(tags@).take(i as int)),
        decreases tags.len() - i,
    {
        assert(views(tags@).take(i + 1).drop_last() =~= views(tags@).take(i as int));
        assert(views(tags@).take(i + 1).last() == tags@[i as int]@);
        if marks_exec(s, &tags[i]) {
            found = true;
        }
        i = i + 1;
    }
    assert(views(tags@).take(tags@.len() as int) =~= views(tags@));
    found
}

fn any_starts_exec(s: &Vec<char>, tags: &Vec<Vec<char>>) -> (b: bool)
    ensures
        b == any_starts(s@, views(tags@)),
{
    let mut i: usize = 0;
    let mut found = false;
    while i < tags.len()
        invariant
            i <= tags.len(),
            found == any_starts(s@, views(tags@).take(i as int)),
        decreases tags.len() - i,
    {
        assert(views(tags@).take(i + 1).drop_last() =~= views(tags@).take(i as int));
        assert(views(tags@).take(i + 1).last() == tags@[i as int]@);
        if starts_with_exec(s, &tags[i]) {
            found = true;
        }
        i = i + 1;
    }
    assert(views(tags@).take(tags@.len() as int) =~= views(tags@));
    found
}

/// Whether a (trimmed) line is a region start or end marker for any
/// comment prefix.
pub fn is_region_marker(line: &str, prefixes: &[&'static str]) -> (b: bool)
    ensures
        b == is_marker_spec(line@, strs(prefixes@)),
{
    let l = chars_of(line);
    let empty: Vec<char> = Vec::new();
    assert(empty@ =~= Seq::<char>::empty());
    let a = make_tags(prefixes, "region:", &empty);
    let b = make_tags(prefixes, "endregion:", &empty);
    any_starts_exec(&l, &a) || any_starts_exec(&l, &b)
}

/// Extract a `<p> region: name ... <p> endregion: name` block, dropping
/// the markers and any nested marker lines.
pub fn extract_region(content: &str, name: &str, comment_prefixes: &[&'static str]) -> (r: Option<String>)
    ensures
        opt_str(r) == extract_region_spec(content@, name@, strs(comment_prefixes@)),
{
    let nm = chars_of(name);
    let start_tags = make_tags(comment_prefixes, "region: ", &nm);
    let end_tags = make_tags(comment_prefixes, "endregion: ", &nm);
    let ls = lines(&chars_of(content));
    let ghost lv = views(ls@);
    let ghost ps = strs(comment_prefixes@);
    let mut state: u8 = 0;
    let mut out: Vec<char> = Vec::new();
    let mut i: usize = 0;
    while i < ls.len()
        invariant
            i <= ls.len(),
            lv == views(ls@),
            lv == lines_spec(content@),
            ps == strs(comment_prefixes@),
            views(start_tags@) == tags_of(ps, "region: "@, name@),
            views(end_tags@) == tags_of(ps, "endregion: "@, name@),
            region_acc(lv.take(i as int), name@, ps) == (state as int, out@),
            state <= 2,
        decreases ls.len() - i,
    {
        assert(lv.take(i + 1).drop_last() =~= lv.take(i as int));
        assert(lv.take(i + 1).last() == ls@[i as int]@);
        let t = trim_vec(&ls[i], CharClass::Ws);
        if state == 0 {
            if any_marks_exec(&t, &start_tags) {
                state = 1;
            }
        } else if state == 1 {
            if any_marks_exec(&t, &end_tags) {
                state = 2;
            } else {
                let ts = string_from(t);
                if !is_region_marker(ts.as_str(), comment_prefixes) {
                    push_all(&mut out, &ls[i]);
                    out.push('\n');
                }
            }
        }
        i = i + 1;
    }
    assert(lv.take(lv.len() as int) =~= lv);
    if state == 0 {
        None
    } else {
        Some(string_from(out))
    }
}


/// The UTF-8 length of a character (`char::len_utf8`).
pub open spec fn utf8_len(c: char) -> nat {
    if (c as u32) < 0x80 {
        1
    } else if (c as u32) < 0x800 {
        2
    } else if (c as u32) < 0x10000 {
        3
    } else {
        4
    }
}

/// The UTF-8 length of a string (`str::len`).
pub open spec fn blen(s: Seq<char>) -> nat
    decreases s.len(),
{
    if s.len() == 0 {
        0
    } else {
        blen(s.drop_last()) + utf8_len(s.last())
    }
}

/// The byte length of a line's leading whitespace.
pub open spec fn indent_of(l: Seq<char>) -> nat {
    blen(l.take(fwd_end(l, 0, CharClass::Ws)))
}

/// The least indentation of the lines that are not blank.
pub open spec fn min_indent(ls: Seq<Seq<char>>) -> Option<nat>
    decreases ls.len(),
{
    if ls.len() == 0 {
        None
    } else {
        let m = min_indent(ls.drop_last());
        let l = ls.last();
        if trim_spec(l, CharClass::Ws).len() == 0 {
            m
        } else {
            match m {
                None => Some(indent_of(l)),
                Some(x) => Some(if x <= indent_of(l) { x } else { indent_of(l) }),
            }
        }
    }
}

/// The character index at which the first `m` bytes of `l` end, if `m`
/// falls on a character boundary within `l`.
pub open spec fn char_at_byte(l: Seq<char>, m: nat) -> Option<int>
    decreases l.len(),
{
    if m == 0 {
        Some(0)
    } else if l.len() == 0 || utf8_len(l[0]) > m {
        None
    } else {
        match char_at_byte(l.skip(1), (m - utf8_len(l[0])) as nat) {
            Some(k) => Some(k + 1),
            None => None,
        }
    }
}

pub open spec fn dedent_width(text: Seq<char>) -> nat {
    match min_indent(lines_spec(text)) {
        Some(m) => m,
        None => 0,
    }
}

/// Each line cut at byte `m` (lines shorter than `m` bytes become empty),
/// newline-terminated.
pub open spec fn cut_lines(ls: Seq<Seq<char>>, m: nat) -> Seq<char>
    decreases ls.len(),
{
    if ls.len() == 0 {
        seq![]
    } else {
        let l = ls.last();
        cut_lines(ls.drop_last(), m) + (if blen(l) >= m {
            l.skip(char_at_byte(l, m)->0)
        } else {
            seq![]
        }) + seq!['\n']
    }
}

/// The common indentation of the non-blank lines removed from every line.
pub open spec fn dedent_spec(text: Seq<char>) -> Seq<char> {
    let m = dedent_width(text);
    if m == 0 {
        text
    } else {
        cut_lines(lines_spec(text), m)
    }
}

/// Each line long enough to be cut is cut on a character boundary (a cut
/// inside a character cannot be taken).
pub open spec fn dedent_ok(text: Seq<char>) -> bool {
    let m = dedent_width(text);
    let ls = lines_spec(text);
    m == 0 || forall|i: int|
        0 <= i < ls.len() && blen(#[trigger] ls[i]) >= m ==> char_at_byte(ls[i], m) is Some
}

fn utf8_width(c: char) -> (w: u128)
    ensures
        w == utf8_len(c),
{
    let v = c as u32;
    if v < 0x80 {
        1
    } else if v < 0x800 {
        2
    } else if v < 0x10000 {
        3
    } else {
        4
    }
}

fn byte_len(s: &Vec<char>) -> (n: u128)
    ensures
        n == blen(s@),
        n <= 4 * s@.len(),
{
    let mut acc: u128 = 0;
    let mut i: usize = 0;
    while i < s.len()
        invariant
            i <= s.len(),
            acc == blen(s@.take(i as int)),
            acc <= 4 * i,
        decreases s.len() - i,
    {
        assert(s@.take(i + 1).drop_last() =~= s@.take(i as int));
        acc = acc + utf8_width(s[i]);
        i = i + 1;
    }
    assert(s@.take(s@.len() as int) =~= s@);
    acc
}

fn indent_exec(l: &Vec<char>) -> (n: u128)
    ensures
        n == indent_of(l@),
{
    let e = fwd_end_exec(l, 0, CharClass::Ws);
    let pre = slice(l, 0, e);
    assert(pre@ =~= l@.take(e as int));
    byte_len(&pre)
}

fn char_at_byte_exec(l: &Vec<char>, m: u128) -> (r: Option<usize>)
    ensures
        match r {
            Some(k) => char_at_byte(l@, m as nat) == Some(k as int),
            None => char_at_byte(l@, m as nat) is None,
        },
{
    let mut k: usize = 0;
    let mut rem: u128 = m;
    assert(l@.skip(0) =~= l@);
    while rem > 0
        invariant
            k <= l.len(),
            rem <= m,
            char_at_byte(l@, m as nat) == match char_at_byte(l@.skip(k as int), rem as nat) {
                Some(j) => Some(j + k),
                None => None,
            },
        decreases rem,
    {
        if k >= l.len() {
            return None;
        }
        let w = utf8_width(l[k]);
        if w > rem {
            return None;
        }
        assert(l@.skip(k as int).skip(1) =~= l@.skip(k + 1));
        rem = rem - w;
        k = k + 1;
    }
    Some(k)
}

fn min_indent_exec(ls: &Vec<Vec<char>>) -> (r: u128)
    ensures
        r == match min_indent(views(ls@)) {
            Some(m) => m,
            None => 0,
        },
{
    let ghost lv = views(ls@);
    let mut have = false;
    let mut m: u128 = 0;
    let mut i: usize = 0;
    while i < ls.len()
        invariant
            i <= ls.len(),
            lv == views(ls@),
            min_indent(lv.take(i as int)) == if have {
                Some(m as nat)
            } else {
                None::<nat>
            },
            !have ==> m == 0,
        decreases ls.len() - i,
    {
        assert(lv.take(i + 1).drop_last() =~= lv.take(i as int));
        assert(lv.take(i + 1).last() == ls@[i as int]@);
        let t = trim_vec(&ls[i], CharClass::Ws);
        if t.len() > 0 {
            let d = indent_exec(&ls[i]);
            if !have || d < m {
                m = d;
            }
            have = true;
        }
        i = i + 1;
    }
    assert(lv.take(lv.len() as int) =~= lv);
    m
}

/// Whether `dedent` can cut every line of `text` (see `dedent_ok`).
pub fn dedent_fits(text: &str) -> (b: bool)
    ensures
        b == dedent_ok(text@),
{
    let ls = lines(&chars_of(text));
    let ghost lv = views(ls@);
    let m = min_indent_exec(&ls);
    if m == 0 {
        return true;
    }
    let mut i: usize = 0;
    while i < ls.len()
        invariant
            i <= ls.len(),
            lv == views(ls@),
            lv == lines_spec(text@),
            m == dedent_width(text@),
            forall|j: int|
                0 <= j < i && blen(#[trigger] lv[j]) >= m ==> char_at_byte(lv[j], m as nat) is Some,
        decreases ls.len() - i,
    {
        assert(lv[i as int] == ls@[i as int]@);
        if byte_len(&ls[i]) >= m {
            if char_at_byte_exec(&ls[i], m).is_none() {
                return false;
            }
        }
        i = i + 1;
    }
    true
}

/// Remove the indentation that every non-blank line shares.
pub fn dedent(text: &str) -> (r: String)
    requires
        dedent_ok(text@),
    ensures
        r@ == dedent_spec(text@),
{
    let ls = lines(&chars_of(text));
    let ghost lv = views(ls@);
    let m = min_indent_exec(&ls);
    if m == 0 {
        return string_from(chars_of(text));
    }
    let mut out: Vec<char> = Vec::new();
    let mut i: usize = 0;
    while i < ls.len()
        invariant
            i <= ls.len(),
            lv == views(ls@),
            lv == lines_spec(text@),
            m == dedent_width(text@),
            m > 0,
            dedent_ok(text@),
            out@ == cut_lines(lv.take(i as int), m as nat),
        decreases ls.len() - i,
    {
        assert(lv.take(i + 1).drop_last() =~= lv.take(i as int));
        assert(lv.take(i + 1).last() == ls@[i as int]@);
        assert(lv[i as int] == ls@[i as int]@);
        let ghost o = out@;
        if byte_len(&ls[i]) >= m {
            match char_at_byte_exec(&ls[i], m) {
                Some(k) => {
                    proof {
                        lemma_char_at_byte_bound(ls@[i as int]@, m as nat);
                    }
                    push_range(&mut out, &ls[i], k, ls[i].len());
                    assert(ls@[i as int]@.subrange(k as int, ls@[i as int]@.len() as int)
                        =~= ls@[i as int]@.skip(k as int));
                },
                None => {
                    assert(false);
                },
            }
        } else {
            assert(o + Seq::<char>::empty() =~= o);
        }
        out.push('\n');
        i = i + 1;
    }
    assert(lv.take(lv.len() as int) =~= lv);
    string_from(out)
}

proof fn lemma_char_at_byte_bound(l: Seq<char>, m: nat)
    ensures
        char_at_byte(l, m) matches Some(k) ==> 0 <= k <= l.len(),
    decreases l.len(),
{
    if m > 0 && l.len() > 0 && utf8_len(l[0]) <= m {
        lemma_char_at_byte_bound(l.skip(1), (m - utf8_len(l[0])) as nat);
    }
}


/// The text an include shows before dedenting: the named region, else the
/// selected lines, else the whole file; `None` when the region is missing.
pub open spec fn include_source(content: Seq<char>, a: AttrsModel, ps: Seq<Seq<char>>) -> Option<
    Seq<char>,
> {
    match a.region {
        Some(n) => extract_region_spec(content, n, ps),
        None => match a.lines {
            Some(r) => Some(extract_lines_spec(lines_spec(content), r)),
            None => Some(content),
        },
    }
}

/// The inputs on which an include can be computed: its line ranges can be
/// sliced and its text dedented.
pub open spec fn include_ok(content: Seq<char>, a: AttrsModel, ps: Seq<Seq<char>>) -> bool {
    &&& (a.region is None && a.lines is Some) ==> ranges_fit(
        lines_spec(content).len() as int,
        a.lines->0,
    )
    &&& (include_source(content, a, ps) matches Some(b) ==> dedent_ok(b))
}

/// The message for a region that the file does not have.
pub open spec fn region_missing_msg(name: Seq<char>, path: Seq<char>) -> Seq<char> {
    "region `"@ + name + "` not found in "@ + path
}

/// Whether `include_body` can run on these inputs (see `include_ok`).
pub fn include_fits(content: &str, attrs: &CodeBlockAttrs, prefixes: &[&'static str]) -> (b: bool)
    ensures
        b == include_ok(content@, attrs@, strs(prefixes@)),
{
    match &attrs.region {
        Some(n) => match extract_region(content, n.as_str(), prefixes) {
            Some(body) => dedent_fits(body.as_str()),
            None => true,
        },
        None => match &attrs.lines {
            Some(ranges) => {
                let ls = lines(&chars_of(content));
                let n = ls.len();
                let mut i: usize = 0;
                while i < ranges.len()
                    invariant
                        i <= ranges.len(),
                        n == lines_spec(content@).len(),
                        attrs@.region is None,
                        attrs@.lines == Some(ranges@),
                        forall|j: int|
                            0 <= j < i ==> range_lo(#[trigger] ranges@[j]) <= range_hi(
                                ranges@[j],
                                n as int,
                            ),
                    decreases ranges.len() - i,
                {
                    let (a, b) = ranges[i];
                    let lo: usize = if a == 0 { 0 } else { a - 1 };
                    let hi: usize = if b < n { b } else { n };
                    assert(lo == range_lo(ranges@[i as int]));
                    assert(hi == range_hi(ranges@[i as int], n as int));
                    if lo > hi {
                        let ghost bad = ranges@[i as int];
                        assert(range_lo(bad) > range_hi(bad, n as int));
                        assert(!ranges_fit(n as int, ranges@));
                        return false;
                    }
                    i = i + 1;
                }
                assert(ranges_fit(n as int, ranges@));
                let body = extract_lines(content, ranges.as_slice());
                dedent_fits(body.as_str())
            },
            None => dedent_fits(content),
        },
    }
}

/// The shown text of an include whose file holds `content` (read from
/// `path`): region, else line ranges, else all of it, then dedented.
pub fn include_body(
    path: &str,
    content: &str,
    attrs: &CodeBlockAttrs,
    comment_prefixes: &[&'static str],
) -> (r: Result<String, FarolError>)
    requires
        include_ok(content@, attrs@, strs(comment_prefixes@)),
    ensures
        match r {
            Ok(s) => (include_source(content@, attrs@, strs(comment_prefixes@)) matches Some(b)
                && s@ == dedent_spec(b)),
            Err(e) => include_source(content@, attrs@, strs(comment_prefixes@)) is None && (e matches FarolError::ConfigInvalid { message }
                && message@ == region_missing_msg(attrs@.region->0, path@)),
        },
{
    let body = match &attrs.region {
        Some(n) => match extract_region(content, n.as_str(), comment_prefixes) {
            Some(b) => b,
            None => {
                let mut m: Vec<char> = Vec::new();
                push_str(&mut m, "region `");
                push_str(&mut m, n.as_str());
                push_str(&mut m, "` not found in ");
                push_str(&mut m, path);
                return Err(FarolError::ConfigInvalid { message: string_from(m) });
            },
        },
        None => match &attrs.lines {
            Some(ranges) => extract_lines(content, ranges.as_slice()),
            None => string_from(chars_of(content)),
        },
    };
    Ok(dedent(body.as_str()))
}

/// The file an include names: `rel` joined to the directory of the page
/// source, then normalized.
pub fn resolve_path(page_source: &str, rel: &str) -> (r: String)
    ensures
        r@ == resolve_path_spec(page_source@, rel@),
{
    string_from(resolve_relative(&chars_of(page_source), &chars_of(rel)))
}

} // verus!
