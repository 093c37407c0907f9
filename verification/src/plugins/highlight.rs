//! Server-side syntax highlighting and extended fence metadata.
//!
//! Fenced code blocks are intercepted before the Markdown parser sees
//! them: the info string is parsed (see `code_include::CodeBlockAttrs`),
//! inline line markers (`# !mark`, `// !add`, `// !del`, `# !focus`) are
//! read and removed, `hl_lines` is merged in, each line is highlighted by
//! `syntect`, and the block is emitted as ready-to-render HTML.
use vstd::prelude::*;
use syntect::highlighting::{Style, Theme, ThemeSet};
use syntect::html::{styled_line_to_highlighted_html, IncludeBackground};
use syntect::parsing::SyntaxSet;
use crate::plugins::code_include::{effective_title_spec, AttrsModel, CodeBlockAttrs, opt_str};
use crate::slug::str_views;
use crate::text::{
    chars_of, dec_spec, eq_vec, escape, escape_spec, push_all, push_dec, push_str, rfind,
    rfind_spec, lemma_rfind_from_props, slice, split_inclusive_nl, split_lines_incl, string_from,
    trim_end_spec, trim_end_vec, trim_spec, trim_vec, views, CharClass, EscapeSet,
    to_ascii_lower, ascii_lower_seq, back_end, lemma_back_end_bounds, find, find_from,
    lemma_find_from_props, starts_with, trim_start_spec,
};

verus! {

#[verifier::external_type_specification]
#[verifier::external_body]
pub struct ExSyntaxSet(SyntaxSet);

#[verifier::external_type_specification]
#[verifier::external_body]
pub struct ExTheme(Theme);

/// The highlight plugin: the bundled syntax definitions and theme.
pub struct HighlightPlugin {
    syntaxes: SyntaxSet,
    theme: Theme,
}

/// What a line is marked as.
#[derive(Debug, Clone, Copy, PartialEq, Eq, Structural)]
pub enum LineMarker {
    /// No marker (`LineMarker::Plain` would clash with `Option::None`).
    Plain,
    Mark,
    Add,
    Del,
    Focus,
}

/// The position, in the bundled syntax set (`two_face`'s
/// `extra_newlines`), of the syntax `SyntaxSet::find_syntax_by_token`
/// finds for `token`, if any.
pub uninterp spec fn syntax_by_token_of(token: Seq<char>) -> Option<usize>;

/// Likewise for `SyntaxSet::find_syntax_by_name`.
pub uninterp spec fn syntax_by_name_of(name: Seq<char>) -> Option<usize>;

/// Likewise for `SyntaxSet::find_syntax_by_extension`.
pub uninterp spec fn syntax_by_extension_of(ext: Seq<char>) -> Option<usize>;

/// `syntect`'s highlighting of `lines` with the syntax at position `idx`
/// of the bundled set and the `base16-ocean.light` theme, one
/// `HighlightLines` state across the lines: per line, `None` when
/// `highlight_line` failed, else the HTML of its styled ranges (`None`
/// when that HTML could not be produced). `None` overall when there is no
/// syntax at `idx`.
pub uninterp spec fn highlighted_of(idx: usize, lines: Seq<Seq<char>>) -> Option<Seq<Option<Option<Seq<char>>>>>;

/// The HTML `styled_line_to_highlighted_html` gives a line styled
/// entirely with the default style, if any.
pub uninterp spec fn plain_html_of(line: Seq<char>) -> Option<Seq<char>>;

/// The syntax for a language token: none for an empty token, else found
/// by token, then by name, then by extension.
pub open spec fn syntax_for_spec(token: Seq<char>) -> Option<usize> {
    if token.len() == 0 {
        None
    } else {
        match syntax_by_token_of(token) {
            Some(i) => Some(i),
            None => match syntax_by_name_of(token) {
                Some(i) => Some(i),
                None => syntax_by_extension_of(token),
            },
        }
    }
}

pub open spec fn opt_opt_strs(v: Seq<Option<Option<String>>>) -> Seq<Option<Option<Seq<char>>>> {
    v.map_values(|o: Option<Option<String>>| match o {
        Some(x) => Some(opt_str(x)),
        None => None,
    })
}

/// Loads `two_face::syntax::extra_newlines()`, the syntax definitions of
/// `bat`; nothing is stated of them.
#[verifier::external_body]
fn load_syntaxes() -> (r: SyntaxSet) {
    two_face::syntax::extra_newlines()
}

/// A theme of `ThemeSet::load_defaults()` by name; syntect's docs list
/// `base16-ocean.light` among the keys, so the lookup does not fail for it.
#[verifier::external_body]
fn load_theme(name: &str) -> (r: Theme)
    requires
        name@ == "base16-ocean.light"@,
{
    ThemeSet::load_defaults().themes[name].clone()
}

/// `SyntaxSet::find_syntax_by_token`, the syntax given by its position
/// in `syntaxes.syntaxes()`. `syntaxes` carries no plain view, so the name
/// is of the token alone: the only set ever passed is the one
/// `HighlightPlugin::new` loads.
#[verifier::external_body]
fn find_by_token(syntaxes: &SyntaxSet, token: &str) -> (r: Option<usize>)
    ensures
        r == syntax_by_token_of(token@),
{
    let found = syntaxes.find_syntax_by_token(token)?;
    syntaxes.syntaxes().iter().position(|s| std::ptr::eq(s, found))
}

/// `SyntaxSet::find_syntax_by_name`, as a position (see `find_by_token`).
#[verifier::external_body]
fn find_by_name(syntaxes: &SyntaxSet, name: &str) -> (r: Option<usize>)
    ensures
        r == syntax_by_name_of(name@),
{
    let found = syntaxes.find_syntax_by_name(name)?;
    syntaxes.syntaxes().iter().position(|s| std::ptr::eq(s, found))
}

/// `SyntaxSet::find_syntax_by_extension`, as a position (see
/// `find_by_token`).
#[verifier::external_body]
fn find_by_extension(syntaxes: &SyntaxSet, ext: &str) -> (r: Option<usize>)
    ensures
        r == syntax_by_extension_of(ext@),
{
    let found = syntaxes.find_syntax_by_extension(ext)?;
    syntaxes.syntaxes().iter().position(|s| std::ptr::eq(s, found))
}

/// `HighlightLines::highlight_line` over each line with one state, each
/// success turned into HTML by `styled_line_to_highlighted_html`. Its
/// result also depends on `syntaxes` and `theme`, which carry no plain
/// view; the only values ever passed are the ones `HighlightPlugin::new`
/// loads, the pair `highlighted_of` describes.
#[verifier::external_body]
fn highlight_each(syntaxes: &SyntaxSet, theme: &Theme, idx: usize, lines: &Vec<String>) -> (r: Option<Vec<Option<Option<String>>>>)
    ensures
        match r {
            Some(v) => highlighted_of(idx, str_views(lines@)) == Some(opt_opt_strs(v@)) && v@.len() == lines@.len(),
            None => highlighted_of(idx, str_views(lines@)) is None,
        },
{
    let syntax = syntaxes.syntaxes().get(idx)?;
    let mut h = syntect::easy::HighlightLines::new(syntax, theme);
    Some(lines.iter().map(|l| {
        h.highlight_line(l, syntaxes).ok().map(|ranges| styled_line_to_highlighted_html(&ranges, IncludeBackground::No).ok())
    }).collect())
}

/// `styled_line_to_highlighted_html` of a line in the default style.
#[verifier::external_body]
fn plain_line_html(line: &str) -> (r: Option<String>)
    ensures
        opt_str(r) == plain_html_of(line@),
{
    styled_line_to_highlighted_html(&[(Style::default(), line)], IncludeBackground::No).ok()
}

impl HighlightPlugin {
    pub fn new() -> Self {
        HighlightPlugin { syntaxes: load_syntaxes(), theme: load_theme("base16-ocean.light") }
    }
}

/// The CSS classes of a line.
pub open spec fn line_class_spec(m: LineMarker, has_focus: bool) -> Seq<char> {
    match m {
        LineMarker::Mark => "line mark"@,
        LineMarker::Add => "line add"@,
        LineMarker::Del => "line del"@,
        LineMarker::Focus => "line focus"@,
        LineMarker::Plain => if has_focus {
            "line dim"@
        } else {
            "line"@
        },
    }
}

pub fn line_class(m: &LineMarker, has_focus: bool) -> (r: &'static str)
    ensures
        r@ == line_class_spec(*m, has_focus),
{
    match m {
        LineMarker::Mark => "line mark",
        LineMarker::Add => "line add",
        LineMarker::Del => "line del",
        LineMarker::Focus => "line focus",
        LineMarker::Plain => if has_focus {
            "line dim"
        } else {
            "line"
        },
    }
}

/// The marker a comment text names.
pub open spec fn marker_word(w: Seq<char>) -> Option<LineMarker> {
    if w == "!mark"@ {
        Some(LineMarker::Mark)
    } else if w == "!add"@ {
        Some(LineMarker::Add)
    } else if w == "!del"@ {
        Some(LineMarker::Del)
    } else if w == "!focus"@ {
        Some(LineMarker::Focus)
    } else {
        None
    }
}

/// Trying comment prefixes from `k` on: the first whose last occurrence in
/// `stripped` is followed by a marker word gives the marker and the line
/// without the comment (trailing blanks dropped, line ending kept).
pub open spec fn marker_from(stripped: Seq<char>, nl: Seq<char>, line: Seq<char>, ps: Seq<Seq<char>>, k: int) -> (LineMarker, Seq<char>)
    decreases ps.len() - k,
{
    if k < 0 || k >= ps.len() {
        (LineMarker::Plain, line)
    } else {
        let p = ps[k];
        match rfind_spec(stripped, p) {
            Some(idx) => match marker_word(trim_spec(stripped.skip(idx + p.len()), CharClass::Ws)) {
                Some(m) => (m, trim_end_spec(stripped.take(idx), CharClass::Either(' ', '\t')) + nl),
                None => marker_from(stripped, nl, line, ps, k + 1),
            },
            None => marker_from(stripped, nl, line, ps, k + 1),
        }
    }
}

/// A line's marker, and the line without it.
pub open spec fn extract_marker_spec(line: Seq<char>, ps: Seq<Seq<char>>) -> (LineMarker, Seq<char>) {
    let stripped = trim_end_spec(line, CharClass::Either('\n', '\r'));
    marker_from(stripped, line.skip(stripped.len() as int), line, ps, 0)
}

fn marker_word_exec(w: &Vec<char>) -> (r: Option<LineMarker>)
    ensures
        r == marker_word(w@),
{
    if lit_is(w, "!mark") {
        Some(LineMarker::Mark)
    } else if lit_is(w, "!add") {
        Some(LineMarker::Add)
    } else if lit_is(w, "!del") {
        Some(LineMarker::Del)
    } else if lit_is(w, "!focus") {
        Some(LineMarker::Focus)
    } else {
        None
    }
}

fn lit_is(v: &Vec<char>, lit: &str) -> (b: bool)
    ensures
        b == (v@ == lit@),
{
    eq_vec(v, &chars_of(lit))
}

/// Read and remove an inline marker comment from a line.
pub fn extract_marker(line: &str, prefixes: &[&'static str]) -> (r: (LineMarker, String))
    ensures
        (r.0, r.1@) == extract_marker_spec(line@, crate::plugins::code_include::strs(prefixes@)),
{
    let l = chars_of(line);
    let stripped = trim_end_vec(&l, CharClass::Either('\n', '\r'));
    proof {
        lemma_back_end_bounds(l@, l@.len() as int, CharClass::Either('\n', '\r'));
    }
    let nl = slice(&l, stripped.len(), l.len());
    assert(nl@ =~= l@.skip(stripped@.len() as int));
    let ghost ps = crate::plugins::code_include::strs(prefixes@);
    let mut k: usize = 0;
    while k < prefixes.len()
        invariant
            k <= prefixes.len(),
            ps == crate::plugins::code_include::strs(prefixes@),
            stripped@ == trim_end_spec(l@, CharClass::Either('\n', '\r')),
            nl@ == l@.skip(stripped@.len() as int),
            l@ == line@,
            extract_marker_spec(line@, ps) == marker_from(stripped@, nl@, l@, ps, k as int),
        decreases prefixes.len() - k,
    {
        let p = chars_of(prefixes[k]);
        assert(ps[k as int] == p@);
        match rfind(&stripped, &p) {
            Some(idx) => {
                proof {
                    lemma_rfind_from_props(stripped@, stripped@.len() - p@.len(), p@);
                }
                let after = slice(&stripped, idx + p.len(), stripped.len());
                assert(after@ =~= stripped@.skip(idx + p@.len()));
                let w = trim_vec(&after, CharClass::Ws);
                match marker_word_exec(&w) {
                    Some(m) => {
                        let before = slice(&stripped, 0, idx);
                        assert(before@ =~= stripped@.take(idx as int));
                        let mut out = trim_end_vec(&before, CharClass::Either(' ', '\t'));
                        push_all(&mut out, &nl);
                        return (m, string_from(out));
                    },
                    None => {},
                }
            },
            None => {},
        }
        k = k + 1;
    }
    (LineMarker::Plain, string_from(l))
}

/// The language group a lowercased language name belongs to (0-4), or 5.
pub open spec fn lang_group(l: Seq<char>) -> int {
    if l == "rust"@ || l == "rs"@ || l == "c"@ || l == "cpp"@ || l == "c++"@ || l == "cs"@ || l == "csharp"@ || l == "java"@ || l == "kotlin"@ || l == "kt"@ || l == "swift"@ || l == "go"@ || l == "js"@ || l == "javascript"@ || l == "ts"@ || l == "typescript"@ || l == "jsx"@ || l == "tsx"@ || l == "dart"@ || l == "scala"@ || l == "groovy"@ || l == "php"@ {
        0
    } else if l == "python"@ || l == "py"@ || l == "ruby"@ || l == "rb"@ || l == "shell"@ || l == "sh"@ || l == "bash"@ || l == "zsh"@ || l == "fish"@ || l == "yaml"@ || l == "yml"@ || l == "toml"@ || l == "ini"@ || l == "conf"@ || l == "dockerfile"@ || l == "docker"@ || l == "r"@ || l == "perl"@ || l == "pl"@ || l == "elixir"@ || l == "ex"@ || l == "exs"@ || l == "makefile"@ || l == "make"@ {
        1
    } else if l == "sql"@ || l == "haskell"@ || l == "hs"@ || l == "ada"@ || l == "lua"@ {
        2
    } else if l == "html"@ || l == "xml"@ || l == "svg"@ || l == "vue"@ || l == "svelte"@ {
        3
    } else if l == "css"@ || l == "scss"@ || l == "sass"@ || l == "less"@ {
        4
    } else {
        5
    }
}

fn lang_group_exec(l: &Vec<char>) -> (g: u8)
    ensures
        g == lang_group(l@),
{
    if lit_is(l, "rust") {
        return 0;
    }
    if lit_is(l, "rs") {
        return 0;
    }
    if lit_is(l, "c") {
        return 0;
    }
    if lit_is(l, "cpp") {
        return 0;
    }
    if lit_is(l, "c++") {
        return 0;
    }
    if lit_is(l, "cs") {
        return 0;
    }
    if lit_is(l, "csharp") {
        return 0;
    }
    if lit_is(l, "java") {
        return 0;
    }
    if lit_is(l, "kotlin") {
        return 0;
    }
    if lit_is(l, "kt") {
        return 0;
    }
    if lit_is(l, "swift") {
        return 0;
    }
    if lit_is(l, "go") {
        return 0;
    }
    if lit_is(l, "js") {
        return 0;
    }
    if lit_is(l, "javascript") {
        return 0;
    }
    if lit_is(l, "ts") {
        return 0;
    }
    if lit_is(l, "typescript") {
        return 0;
    }
    if lit_is(l, "jsx") {
        return 0;
    }
    if lit_is(l, "tsx") {
        return 0;
    }
    if lit_is(l, "dart") {
        return 0;
    }
    if lit_is(l, "scala") {
        return 0;
    }
    if lit_is(l, "groovy") {
        return 0;
    }
    if lit_is(l, "php") {
        return 0;
    }
    if lit_is(l, "python") {
        return 1;
    }
    if lit_is(l, "py") {
        return 1;
    }
    if lit_is(l, "ruby") {
        return 1;
    }
    if lit_is(l, "rb") {
        return 1;
    }
    if lit_is(l, "shell") {
        return 1;
    }
    if lit_is(l, "sh") {
        return 1;
    }
    if lit_is(l, "bash") {
        return 1;
    }
    if lit_is(l, "zsh") {
        return 1;
    }
    if lit_is(l, "fish") {
        return 1;
    }
    if lit_is(l, "yaml") {
        return 1;
    }
    if lit_is(l, "yml") {
        return 1;
    }
    if lit_is(l, "toml") {
        return 1;
    }
    if lit_is(l, "ini") {
        return 1;
    }
    if lit_is(l, "conf") {
        return 1;
    }
    if lit_is(l, "dockerfile") {
        return 1;
    }
    if lit_is(l, "docker") {
        return 1;
    }
    if lit_is(l, "r") {
        return 1;
    }
    if lit_is(l, "perl") {
        return 1;
    }
    if lit_is(l, "pl") {
        return 1;
    }
    if lit_is(l, "elixir") {
        return 1;
    }
    if lit_is(l, "ex") {
        return 1;
    }
    if lit_is(l, "exs") {
        return 1;
    }
    if lit_is(l, "makefile") {
        return 1;
    }
    if lit_is(l, "make") {
        return 1;
    }
    if lit_is(l, "sql") {
        return 2;
    }
    if lit_is(l, "haskell") {
        return 2;
    }
    if lit_is(l, "hs") {
        return 2;
    }
    if lit_is(l, "ada") {
        return 2;
    }
    if lit_is(l, "lua") {
        return 2;
    }
    if lit_is(l, "html") {
        return 3;
    }
    if lit_is(l, "xml") {
        return 3;
    }
    if lit_is(l, "svg") {
        return 3;
    }
    if lit_is(l, "vue") {
        return 3;
    }
    if lit_is(l, "svelte") {
        return 3;
    }
    if lit_is(l, "css") {
        return 4;
    }
    if lit_is(l, "scss") {
        return 4;
    }
    if lit_is(l, "sass") {
        return 4;
    }
    if lit_is(l, "less") {
        return 4;
    }
    5
}


/// The comment prefixes that inline markers may follow, by language.
pub open spec fn prefixes_spec(lang: Seq<char>) -> Seq<Seq<char>> {
    let g = lang_group(ascii_lower_seq(lang));
    if g == 0 {
        seq!["//"@]
    } else if g == 1 {
        seq!["#"@]
    } else if g == 2 {
        seq!["--"@]
    } else if g == 3 {
        seq!["<!--"@]
    } else if g == 4 {
        seq!["/*"@]
    } else {
        seq!["//"@, "#"@]
    }
}

pub fn comment_prefixes_for(lang: &str) -> (r: Vec<&'static str>)
    ensures
        crate::plugins::code_include::strs(r@) == prefixes_spec(lang@),
{
    let l = to_ascii_lower(&chars_of(lang));
    let g = lang_group_exec(&l);
    let r: Vec<&'static str> = if g == 0 {
        vec!["//"]
    } else if g == 1 {
        vec!["#"]
    } else if g == 2 {
        vec!["--"]
    } else if g == 3 {
        vec!["<!--"]
    } else if g == 4 {
        vec!["/*"]
    } else {
        vec!["//", "#"]
    };
    assert(crate::plugins::code_include::strs(r@) =~= prefixes_spec(lang@));
    r
}


/// The classes of a code block's outer `div`.
pub open spec fn block_classes(a: AttrsModel) -> Seq<char> {
    "farol-codeblock"@ + (if a.linenums {
        " with-linenums"@
    } else {
        seq![]
    }) + (if a.no_copy {
        " no-copy"@
    } else {
        seq![]
    })
}

/// One rendered line: its span, the line number when shown, its HTML.
pub open spec fn line_html(a: AttrsModel, idx: int, html: Seq<char>, m: LineMarker, has_focus: bool) -> Seq<char> {
    "<span class=\""@ + line_class_spec(m, has_focus) + "\">"@ + (if a.linenums {
        "<span class=\"linenum\">"@ + dec_spec((a.linenums_start + idx) as nat) + "</span>"@
    } else {
        seq![]
    }) + html + "</span>"@
}

/// Lines `0..n` rendered.
pub open spec fn lines_html(a: AttrsModel, htmls: Seq<Seq<char>>, markers: Seq<LineMarker>, has_focus: bool, n: int) -> Seq<char>
    decreases n,
{
    if n <= 0 {
        seq![]
    } else {
        lines_html(a, htmls, markers, has_focus, n - 1) + line_html(a, n - 1, htmls[n - 1], markers[n - 1], has_focus)
    }
}

pub open spec fn min_len(a: int, b: int) -> int {
    if a <= b {
        a
    } else {
        b
    }
}

/// A whole code block: the wrapper, the optional title header, and the
/// lines (as many as there are both HTML lines and markers).
pub open spec fn render_block_spec(a: AttrsModel, htmls: Seq<Seq<char>>, markers: Seq<LineMarker>, has_focus: bool) -> Seq<char> {
    "<div class=\""@ + block_classes(a) + "\" data-lang=\""@ + escape_spec(a.lang, EscapeSet::Attr) + "\">"@
        + (match effective_title_spec(a) {
            Some(t) => "<div class=\"codeblock-header\"><span class=\"filename\">"@ + escape_spec(t, EscapeSet::Html) + "</span></div>"@,
            None => seq![],
        }) + "<pre><code>"@ + lines_html(a, htmls, markers, has_focus, min_len(htmls.len() as int, markers.len() as int))
        + "</code></pre></div>"@
}

/// Line numbers fit in `usize`: the last number shown, `linenums_start`
/// plus the line count, must not overflow.
pub open spec fn linenums_fit(a: AttrsModel, n: int) -> bool {
    a.linenums ==> a.linenums_start + n <= usize::MAX
}

fn push_line(out: &mut Vec<char>, attrs: &CodeBlockAttrs, idx: usize, html: &str, m: &LineMarker, has_focus: bool)
    requires
        attrs@.linenums ==> attrs@.linenums_start + idx <= usize::MAX,
    ensures
        final(out)@ == old(out)@ + line_html(attrs@, idx as int, html@, *m, has_focus),
{
    let ghost o = out@;
    push_str(out, "<span class=\"");
    push_str(out, line_class(m, has_focus));
    push_str(out, "\">");
    if attrs.linenums {
        push_str(out, "<span class=\"linenum\">");
        push_dec(out, (attrs.linenums_start + idx) as u128);
        push_str(out, "</span>");
    }
    push_str(out, html);
    push_str(out, "</span>");
    assert(out@ =~= o + line_html(attrs@, idx as int, html@, *m, has_focus));
}

/// Render a highlighted block.
pub fn render_block(attrs: &CodeBlockAttrs, line_htmls: &[String], markers: &[LineMarker], has_focus: bool) -> (r: String)
    requires
        linenums_fit(attrs@, min_len(line_htmls@.len() as int, markers@.len() as int)),
    ensures
        r@ == render_block_spec(attrs@, str_views(line_htmls@), markers@, has_focus),
{
    let mut out: Vec<char> = Vec::new();
    push_str(&mut out, "<div class=\"");
    push_str(&mut out, "farol-codeblock");
    if attrs.linenums {
        push_str(&mut out, " with-linenums");
    }
    if attrs.no_copy {
        push_str(&mut out, " no-copy");
    }
    push_str(&mut out, "\" data-lang=\"");
    let lang = escape(&chars_of(attrs.lang.as_str()), EscapeSet::Attr);
    push_all(&mut out, &lang);
    push_str(&mut out, "\">");
    match attrs.effective_title() {
        Some(t) => {
            push_str(&mut out, "<div class=\"codeblock-header\"><span class=\"filename\">");
            let e = escape(&chars_of(t.as_str()), EscapeSet::Html);
            push_all(&mut out, &e);
            push_str(&mut out, "</span></div>");
        },
        None => {},
    }
    push_str(&mut out, "<pre><code>");
    let n: usize = if line_htmls.len() <= markers.len() { line_htmls.len() } else { markers.len() };
    let ghost hv = str_views(line_htmls@);
    let ghost pre = out@;
    let mut idx: usize = 0;
    while idx < n
        invariant
            idx <= n,
            n == min_len(line_htmls@.len() as int, markers@.len() as int),
            hv == str_views(line_htmls@),
            linenums_fit(attrs@, n as int),
            out@ == pre + lines_html(attrs@, hv, markers@, has_focus, idx as int),
        decreases n - idx,
    {
        let ghost o = out@;
        push_line(&mut out, attrs, idx, line_htmls[idx].as_str(), &markers[idx], has_focus);
        assert(hv[idx as int] == line_htmls@[idx as int]@);
        assert(out@ =~= o + line_html(attrs@, idx as int, hv[idx as int], markers@[idx as int], has_focus));
        idx = idx + 1;
    }
    push_str(&mut out, "</code></pre></div>");
    assert(out@ =~= render_block_spec(attrs@, hv, markers@, has_focus));
    string_from(out)
}

/// `hl_lines` merged into the markers: each listed (1-based) line that
/// exists and has no marker of its own is marked.
pub open spec fn apply_hl_spec(markers: Seq<LineMarker>, hl: Seq<usize>) -> Seq<LineMarker>
    decreases hl.len(),
{
    if hl.len() == 0 {
        markers
    } else {
        let m = apply_hl_spec(markers, hl.drop_last());
        let n = hl.last();
        let idx: int = if n == 0 { 0 } else { n - 1 };
        if idx < m.len() && m[idx] == LineMarker::Plain {
            m.update(idx, LineMarker::Mark)
        } else {
            m
        }
    }
}

pub fn apply_hl_lines(markers: &mut Vec<LineMarker>, hl_lines: &Vec<usize>)
    ensures
        final(markers)@ == apply_hl_spec(old(markers)@, hl_lines@),
{
    let ghost m0 = markers@;
    let mut i: usize = 0;
    while i < hl_lines.len()
        invariant
            i <= hl_lines.len(),
            markers@ == apply_hl_spec(m0, hl_lines@.take(i as int)),
        decreases hl_lines.len() - i,
    {
        assert(hl_lines@.take(i + 1).drop_last() =~= hl_lines@.take(i as int));
        let n = hl_lines[i];
        let idx: usize = if n == 0 { 0 } else { n - 1 };
        if idx < markers.len() && markers[idx] == LineMarker::Plain {
            markers.set(idx, LineMarker::Mark);
        }
        i = i + 1;
    }
    assert(hl_lines@.take(hl_lines@.len() as int) =~= hl_lines@);
}

/// The lines of `code` (with their endings) split into markers and the
/// cleaned lines.
pub open spec fn marked_lines(code: Seq<char>, ps: Seq<Seq<char>>) -> Seq<(LineMarker, Seq<char>)> {
    split_lines_incl(code).map_values(|l: Seq<char>| extract_marker_spec(l, ps))
}

pub open spec fn has_focus_spec(ms: Seq<LineMarker>) -> bool {
    exists|i: int| 0 <= i < ms.len() && ms[i] == LineMarker::Focus
}

/// The HTML of each cleaned line: `syntect`'s where it gives one, the
/// escaped line where it does not.
pub open spec fn line_htmls_spec(token: Seq<char>, cleaned: Seq<Seq<char>>) -> Seq<Seq<char>> {
    let esc = cleaned.map_values(|l: Seq<char>| escape_spec(l, EscapeSet::Html));
    match syntax_for_spec(token) {
        None => esc,
        Some(i) => match highlighted_of(i, cleaned) {
            None => esc,
            Some(hs) => Seq::new(cleaned.len(), |j: int| highlight_outcome_html(hs[j], cleaned[j])),
        },
    }
}

/// One line's HTML from its highlighting outcome: the highlighted HTML;
/// a line that did not highlight in the default style; escaped text where
/// no HTML could be produced.
pub open spec fn highlight_outcome_html(h: Option<Option<Seq<char>>>, line: Seq<char>) -> Seq<char> {
    match h {
        Some(Some(x)) => x,
        Some(None) => escape_spec(line, EscapeSet::Html),
        None => match plain_html_of(line) {
            Some(p) => p,
            None => escape_spec(line, EscapeSet::Html),
        },
    }
}

/// A code block rendered from its (already included) code.
pub open spec fn render_code_spec(a: AttrsModel, code: Seq<char>) -> Seq<char> {
    let ml = marked_lines(code, prefixes_spec(a.lang));
    let markers = ml.map_values(|p: (LineMarker, Seq<char>)| p.0);
    let cleaned = ml.map_values(|p: (LineMarker, Seq<char>)| p.1);
    render_block_spec(
        a,
        line_htmls_spec(a.lang, cleaned),
        apply_hl_spec(markers, a.hl_lines),
        has_focus_spec(markers),
    )
}

/// Whether the block's code comes from its `file=`: it names one and its
/// body is blank.
pub open spec fn needs_include_spec(a: AttrsModel, body: Seq<char>) -> bool {
    a.file is Some && trim_spec(body, CharClass::Ws).len() == 0
}

pub fn needs_include(attrs: &CodeBlockAttrs, body: &str) -> (b: bool)
    ensures
        b == needs_include_spec(attrs@, body@),
{
    attrs.file.is_some() && trim_vec(&chars_of(body), CharClass::Ws).len() == 0
}

impl HighlightPlugin {
    /// Render a block whose code is `code`: markers read, `hl_lines`
    /// merged, lines highlighted, block assembled.
    pub fn render_code(&self, attrs: &CodeBlockAttrs, code: &str) -> (r: String)
        requires
            linenums_fit(attrs@, split_lines_incl(code@).len() as int),
        ensures
            r@ == render_code_spec(attrs@, code@),
    {
        let prefixes = comment_prefixes_for(attrs.lang.as_str());
        let ghost ps = crate::plugins::code_include::strs(prefixes@);
        let pieces = split_inclusive_nl(&chars_of(code));
        let ghost ml = marked_lines(code@, ps);
        let mut cleaned: Vec<String> = Vec::new();
        let mut markers: Vec<LineMarker> = Vec::new();
        let mut has_focus = false;
        let mut i: usize = 0;
        while i < pieces.len()
            invariant
                i <= pieces.len(),
                views(pieces@) == split_lines_incl(code@),
                ml == marked_lines(code@, ps),
                ps == crate::plugins::code_include::strs(prefixes@),
                cleaned@.len() == i,
                markers@.len() == i,
                forall|j: int| 0 <= j < i ==> (#[trigger] markers@[j], cleaned@[j]@) == ml[j],
                has_focus == has_focus_spec(markers@),
            decreases pieces.len() - i,
        {
            let piece = string_from(slice(&pieces[i], 0, pieces[i].len()));
            assert(views(pieces@)[i as int] == pieces@[i as int]@);
            assert(piece@ =~= pieces@[i as int]@);
            let pslice = prefixes.as_slice();
            assert(pslice@ == prefixes@);
            let (m, clean) = extract_marker(piece.as_str(), pslice);
            assert(ml[i as int] == extract_marker_spec(pieces@[i as int]@, ps));
            assert((m, clean@) == ml[i as int]);
            let ghost old_m = markers@;
            let ghost old_c = cleaned@;
            markers.push(m);
            cleaned.push(clean);
            assert forall|j: int| 0 <= j < i + 1 implies (#[trigger] markers@[j], cleaned@[j]@) == ml[j] by {
                if j < i {
                    assert(markers@[j] == old_m[j]);
                    assert(cleaned@[j] == old_c[j]);
                }
            }
            if m == LineMarker::Focus {
                has_focus = true;
                assert(markers@[i as int] == LineMarker::Focus);
            } else {
                assert(has_focus_spec(markers@) == has_focus_spec(old_m)) by {
                    if has_focus_spec(markers@) {
                        let w = choose|w: int| 0 <= w < markers@.len() && markers@[w] == LineMarker::Focus;
                        assert(old_m[w] == LineMarker::Focus);
                    }
                    if has_focus_spec(old_m) {
                        let w = choose|w: int| 0 <= w < old_m.len() && old_m[w] == LineMarker::Focus;
                        assert(markers@[w] == LineMarker::Focus);
                    }
                }
            }
            i = i + 1;
        }
        let ghost mk = ml.map_values(|p: (LineMarker, Seq<char>)| p.0);
        let ghost cl = ml.map_values(|p: (LineMarker, Seq<char>)| p.1);
        assert(markers@ =~= mk);
        assert forall|j: int| 0 <= j < cleaned@.len() implies #[trigger] str_views(cleaned@)[j] == cl[j] by {
            assert((markers@[j], cleaned@[j]@) == ml[j]);
        }
        assert(str_views(cleaned@) =~= cl);
        let ghost marks0 = markers@;
        apply_hl_lines(&mut markers, &attrs.hl_lines);
        let htmls = self.htmls_for(attrs.lang.as_str(), &cleaned);
        render_block(attrs, htmls.as_slice(), markers.as_slice(), has_focus)
    }

    /// The syntax for a language token: none for an empty token, else
    /// found by token, then by name, then by extension.
    fn syntax_for(&self, token: &str) -> (r: Option<usize>)
        ensures
            r == syntax_for_spec(token@),
    {
        if token.unicode_len() == 0 {
            return None;
        }
        match find_by_token(&self.syntaxes, token) {
            Some(i) => Some(i),
            None => match find_by_name(&self.syntaxes, token) {
                Some(i) => Some(i),
                None => find_by_extension(&self.syntaxes, token),
            },
        }
    }

    /// The HTML of each line, highlighted when a syntax answers to `lang`.
    fn htmls_for(&self, lang: &str, lines: &Vec<String>) -> (r: Vec<String>)
        ensures
            str_views(r@) == line_htmls_spec(lang@, str_views(lines@)),
            r@.len() == lines@.len(),
    {
        let ghost lv = str_views(lines@);
        let hs = match self.syntax_for(lang) {
            Some(i) => highlight_each(&self.syntaxes, &self.theme, i, lines),
            None => None,
        };
        let mut out: Vec<String> = Vec::new();
        let mut i: usize = 0;
        while i < lines.len()
            invariant
                i <= lines.len(),
                lv == str_views(lines@),
                out@.len() == i,
                hs matches Some(v) ==> v@.len() == lines@.len(),
                forall|j: int| 0 <= j < i ==> #[trigger] str_views(out@)[j] == line_htmls_spec(lang@, lv)[j],
                match syntax_for_spec(lang@) {
                    None => hs is None,
                    Some(k) => match hs {
                        Some(v) => highlighted_of(k, lv) == Some(opt_opt_strs(v@)),
                        None => highlighted_of(k, lv) is None,
                    },
                },
            decreases lines.len() - i,
        {
            let esc = string_from(escape(&chars_of(lines[i].as_str()), EscapeSet::Html));
            let h = match &hs {
                Some(v) => match &v[i] {
                    Some(Some(x)) => x.clone(),
                    Some(None) => esc,
                    None => match plain_line_html(lines[i].as_str()) {
                        Some(p) => p,
                        None => esc,
                    },
                },
                None => esc,
            };
            assert(lv[i as int] == lines@[i as int]@);
            let ghost before = out@;
            out.push(h);
            assert(str_views(out@)[i as int] == h@);
            assert forall|j: int| 0 <= j < i + 1 implies #[trigger] str_views(out@)[j] == line_htmls_spec(lang@, lv)[j] by {
                if j < i {
                    assert(str_views(out@)[j] == str_views(before)[j]);
                }
            }
            i = i + 1;
        }
        assert(str_views(out@) =~= line_htmls_spec(lang@, lv));
        out
    }
}


/// A piece of a Markdown text: plain text, or a fenced block with its
/// info string and body.
pub enum FencePiece {
    Text(String),
    Fence { info: String, code: String },
}

/// A piece as `(is a fence, text or info string, body)`.
pub open spec fn piece_view(p: FencePiece) -> (bool, Seq<char>, Seq<char>) {
    match p {
        FencePiece::Text(t) => (false, t@, seq![]),
        FencePiece::Fence { info, code } => (true, info@, code@),
    }
}

pub open spec fn pieces_view(v: Seq<FencePiece>) -> Seq<(bool, Seq<char>, Seq<char>)> {
    v.map_values(|p: FencePiece| piece_view(p))
}

/// The end of the line starting at `cur`: the next `\n`, or the end.
pub open spec fn line_end_at(s: Seq<char>, cur: int) -> int {
    match find_from(s, cur, seq!['\n']) {
        Some(n) => n,
        None => s.len() as int,
    }
}

pub proof fn lemma_line_end(s: Seq<char>, cur: int)
    requires
        0 <= cur <= s.len(),
    ensures
        cur <= line_end_at(s, cur) <= s.len(),
{
    lemma_find_from_props(s, cur, seq!['\n']);
}

/// The first line at or after `scan` whose trimmed text opens with three
/// backticks: its start and end.
pub open spec fn closing_from(s: Seq<char>, scan: int) -> Option<(int, int)>
    decreases s.len() - scan,
{
    if scan < 0 || scan >= s.len() {
        None
    } else {
        let nl = line_end_at(s, scan);
        proof {
            lemma_line_end(s, scan);
        }
        if starts_with(trim_spec(s.subrange(scan, nl), CharClass::Ws), "```"@) {
            Some((scan, nl))
        } else if nl + 1 >= s.len() {
            None
        } else {
            closing_from(s, nl + 1)
        }
    }
}

pub proof fn lemma_closing_bounds(s: Seq<char>, scan: int)
    requires
        0 <= scan,
    ensures
        closing_from(s, scan) matches Some((b, c)) ==> scan <= b <= c <= s.len(),
    decreases s.len() - scan,
{
    if scan < s.len() {
        lemma_line_end(s, scan);
        if line_end_at(s, scan) + 1 < s.len() {
            lemma_closing_bounds(s, line_end_at(s, scan) + 1);
        }
    }
}

/// The pieces of `s` from `cur` on: lines outside fences are text (with
/// their newline), a fence runs from an opening line to the next line that
/// opens with backticks; an unclosed fence leaves the rest as text.
pub open spec fn fence_pieces(s: Seq<char>, cur: int) -> Seq<(bool, Seq<char>, Seq<char>)>
    decreases s.len() - cur,
{
    if cur < 0 || cur >= s.len() {
        seq![]
    } else {
        let len = s.len() as int;
        let line_end = line_end_at(s, cur);
        proof {
            lemma_line_end(s, cur);
        }
        let line = s.subrange(cur, line_end);
        let stripped = trim_start_spec(line, CharClass::Ws);
        if !starts_with(stripped, "```"@) {
            seq![(false, line + (if line_end < len { seq!['\n'] } else { seq![] }), seq![])]
                + (if line_end < len {
                fence_pieces(s, line_end + 1)
            } else {
                seq![]
            })
        } else {
            let info = trim_spec(stripped.skip(3), CharClass::Ws);
            let body_start = if line_end < len { line_end + 1 } else { len };
            proof {
                lemma_closing_bounds(s, body_start);
            }
            match closing_from(s, body_start) {
                Some((b, c)) => seq![(true, info, s.subrange(body_start, b))] + fence_pieces(
                    s,
                    if c < len { c + 1 } else { len },
                ),
                None => seq![(false, s.skip(cur), seq![])],
            }
        }
    }
}

/// Split Markdown into text and fenced blocks.
pub fn fenced_pieces(markdown: &str) -> (r: Vec<FencePiece>)
    ensures
        pieces_view(r@) == fence_pieces(markdown@, 0),
{
    let s = chars_of(markdown);
    let len = s.len();
    let nlv = vec!['\n'];
    assert(nlv@ =~= seq!['\n']);
    let ticks = chars_of("```");
    let mut out: Vec<FencePiece> = Vec::new();
    let mut cursor: usize = 0;
    proof {
        assert(pieces_view(out@) =~= Seq::<(bool, Seq<char>, Seq<char>)>::empty());
    }
    while cursor < len
        invariant
            len == s@.len(),
            s@ == markdown@,
            nlv@ == seq!['\n'],
            ticks@ == "```"@,
            fence_pieces(s@, 0) == pieces_view(out@) + fence_pieces(s@, cursor as int),
        decreases len - cursor,
    {
        let ghost pv = pieces_view(out@);
        let line_end = match find(&s, &nlv, cursor) {
            Some(n) => n,
            None => len,
        };
        proof {
            lemma_line_end(s@, cursor as int);
        }
        let line = slice(&s, cursor, line_end);
        let stripped = crate::text::trim_start_vec(&line, CharClass::Ws);
        if !crate::text::starts_with_exec(&stripped, &ticks) {
            let mut t = line;
            if line_end < len {
                t.push('\n');
            }
            assert(t@ =~= line@ + (if line_end < len { seq!['\n'] } else { seq![] }));
            let piece = FencePiece::Text(string_from(t));
            out.push(piece);
            assert(pieces_view(out@) =~= pv + seq![piece_view(piece)]);
            assert(line_end == line_end_at(s@, cursor as int));
            assert(!starts_with(stripped@, "```"@));
            assert(fence_pieces(s@, cursor as int) == seq![piece_view(piece)] + (if line_end < len {
                fence_pieces(s@, line_end + 1)
            } else {
                seq![]
            }));
            if line_end < len {
                cursor = line_end + 1;
            } else {
                assert(fence_pieces(s@, len as int) =~= Seq::<(bool, Seq<char>, Seq<char>)>::empty());
                cursor = len;
            }
        } else {
            proof {
                reveal_strlit("```");
            }
            let rest = slice(&stripped, 3, stripped.len());
            assert(rest@ =~= stripped@.skip(3));
            let info = trim_vec(&rest, CharClass::Ws);
            let body_start: usize = if line_end < len { line_end + 1 } else { len };
            proof {
                lemma_closing_bounds(s@, body_start as int);
            }
            let mut scan = body_start;
            let mut found: Option<(usize, usize)> = None;
            while scan < len
                invariant_except_break
                    body_start <= scan <= len,
                    len == s@.len(),
                    nlv@ == seq!['\n'],
                    ticks@ == "```"@,
                    found is None,
                    closing_from(s@, body_start as int) == closing_from(s@, scan as int),
                ensures
                    match found {
                        Some((b, c)) => closing_from(s@, body_start as int) == Some((b as int, c as int)),
                        None => closing_from(s@, body_start as int) is None,
                    },
                decreases len - scan,
            {
                let nl = match find(&s, &nlv, scan) {
                    Some(n) => n,
                    None => len,
                };
                proof {
                    lemma_line_end(s@, scan as int);
                }
                let cand = trim_vec(&slice(&s, scan, nl), CharClass::Ws);
                if crate::text::starts_with_exec(&cand, &ticks) {
                    found = Some((scan, nl));
                    break;
                }
                if nl >= len - 1 {
                    scan = len;
                } else {
                    scan = nl + 1;
                }
            }
            match found {
                Some((b, c)) => {
                    let code = slice(&s, body_start, b);
                    let piece = FencePiece::Fence { info: string_from(info), code: string_from(code) };
                    out.push(piece);
                    assert(pieces_view(out@) =~= pv + seq![piece_view(piece)]);
                    assert(line_end == line_end_at(s@, cursor as int));
                    assert(fence_pieces(s@, cursor as int) == seq![piece_view(piece)] + fence_pieces(
                        s@,
                        if c < len { c + 1 } else { len as int },
                    ));
                    cursor = if c < len { c + 1 } else { len };
                },
                None => {
                    let t = slice(&s, cursor, len);
                    assert(t@ =~= s@.skip(cursor as int));
                    let piece = FencePiece::Text(string_from(t));
                    out.push(piece);
                    assert(pieces_view(out@) =~= pv + seq![piece_view(piece)]);
                    assert(line_end == line_end_at(s@, cursor as int));
                    assert(fence_pieces(s@, cursor as int) == seq![piece_view(piece)]);
                    assert(fence_pieces(s@, len as int) =~= Seq::<(bool, Seq<char>, Seq<char>)>::empty());
                    cursor = len;
                },
            }
        }
    }
    assert(pieces_view(out@) =~= pieces_view(out@) + fence_pieces(s@, cursor as int));
    out
}

/// The output for pieces `0..k` when the `j`-th fence renders as
/// `rendered[j]`: text as is, each fence's HTML followed by a newline.
pub open spec fn assemble_spec(ps: Seq<(bool, Seq<char>, Seq<char>)>, rendered: Seq<Seq<char>>) -> Seq<char>
    decreases ps.len(),
{
    if ps.len() == 0 {
        seq![]
    } else {
        let before = assemble_spec(ps.drop_last(), rendered);
        let p = ps.last();
        if p.0 {
            before + rendered[fence_count(ps.drop_last())] + seq!['\n']
        } else {
            before + p.1
        }
    }
}

/// The number of fences among pieces.
pub open spec fn fence_count(ps: Seq<(bool, Seq<char>, Seq<char>)>) -> int
    decreases ps.len(),
{
    if ps.len() == 0 {
        0
    } else {
        fence_count(ps.drop_last()) + if ps.last().0 {
            1int
        } else {
            0
        }
    }
}

proof fn lemma_fence_count_bounds(ps: Seq<(bool, Seq<char>, Seq<char>)>)
    ensures
        0 <= fence_count(ps) <= ps.len(),
    decreases ps.len(),
{
    if ps.len() > 0 {
        lemma_fence_count_bounds(ps.drop_last());
    }
}

/// Put the pieces back together with each fence replaced by its HTML.
pub fn assemble_fenced(pieces: &Vec<FencePiece>, rendered: &Vec<String>) -> (r: String)
    requires
        rendered@.len() >= fence_count(pieces_view(pieces@)),
    ensures
        r@ == assemble_spec(pieces_view(pieces@), str_views(rendered@)),
{
    let ghost pv = pieces_view(pieces@);
    let mut out: Vec<char> = Vec::new();
    let mut k: usize = 0;
    let mut i: usize = 0;
    let rlen = rendered.len();
    while i < pieces.len()
        invariant
            i <= pieces.len(),
            rlen == rendered@.len(),
            pv == pieces_view(pieces@),
            rendered@.len() >= fence_count(pv),
            k == fence_count(pv.take(i as int)),
            out@ == assemble_spec(pv.take(i as int), str_views(rendered@)),
        decreases pieces.len() - i,
    {
        assert(pv.take(i + 1).drop_last() =~= pv.take(i as int));
        assert(pv.take(i + 1).last() == piece_view(pieces@[i as int]));
        proof {
            lemma_fence_count_mono(pv, i + 1);
        }
        match &pieces[i] {
            FencePiece::Text(t) => {
                push_str(&mut out, t.as_str());
            },
            FencePiece::Fence { .. } => {
                assert(pv[i as int].0);
                assert(fence_count(pv.take(i as int)) < fence_count(pv));
                assert(str_views(rendered@)[k as int] == rendered@[k as int]@);
                push_str(&mut out, rendered[k].as_str());
                out.push('\n');
                k = k + 1;
            },
        }
        i = i + 1;
    }
    assert(pv.take(pv.len() as int) =~= pv);
    string_from(out)
}

proof fn lemma_fence_count_mono(ps: Seq<(bool, Seq<char>, Seq<char>)>, j: int)
    requires
        0 <= j <= ps.len(),
    ensures
        fence_count(ps.take(j)) <= fence_count(ps),
        j > 0 && ps[j - 1].0 ==> fence_count(ps.take(j - 1)) < fence_count(ps),
    decreases ps.len() - j,
{
    if j < ps.len() {
        lemma_fence_count_mono(ps, j + 1);
        assert(ps.take(j + 1).drop_last() =~= ps.take(j));
        if j > 0 {
            assert(ps.take(j).drop_last() =~= ps.take(j - 1));
        }
    } else {
        assert(ps.take(j) =~= ps);
        if j > 0 {
            assert(ps.take(j).drop_last() =~= ps.take(j - 1));
        }
    }
}

} // verus!
