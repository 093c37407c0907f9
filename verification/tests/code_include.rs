use farol::plugins::code_include::{
    dedent, dedent_fits, extract_lines, extract_region, include_body, include_fits,
    is_region_marker, resolve_path, CodeBlockAttrs,
};
use farol::error::FarolError;

#[test]
fn parses_bare_lang() {
    let a = CodeBlockAttrs::parse("python");
    assert_eq!(a.lang, "python");
    assert!(a.file.is_none());
}

#[test]
fn parses_file_and_title() {
    let a = CodeBlockAttrs::parse(r#"python file="./examples/x.py" title="my example""#);
    assert_eq!(a.lang, "python");
    assert_eq!(a.file.as_deref(), Some("./examples/x.py"));
    assert_eq!(a.title.as_deref(), Some("my example"));
}

#[test]
fn parses_lines() {
    let a = CodeBlockAttrs::parse(r#"py lines="10-25,40""#);
    assert_eq!(a.lines, Some(vec![(10, 25), (40, 40)]));
}

#[test]
fn parses_linenums_start() {
    let a = CodeBlockAttrs::parse(r#"py linenums="start=42""#);
    assert!(a.linenums);
    assert_eq!(a.linenums_start, 42);
}

#[test]
fn effective_title_auto_from_file() {
    let a = CodeBlockAttrs::parse(r#"py file="./examples/foo.py""#);
    assert_eq!(a.effective_title().as_deref(), Some("foo.py"));
}

#[test]
fn hl_lines_parsed() {
    let a = CodeBlockAttrs::parse(r#"py hl_lines="1 3-5""#);
    assert_eq!(a.hl_lines, vec![1, 3, 4, 5]);
}

#[test]
fn regions_extract_and_dedent() {
    let src = "\
pre
# region: body
    def x():
        return 1
# endregion: body
post
";
    let got = extract_region(src, "body", &["#"]).unwrap();
    let cleaned = dedent(&got);
    assert_eq!(cleaned, "def x():\n    return 1\n");
}

#[test]
fn nested_regions_are_isolated() {
    let src = "\
# region: outer
outer-before
# region: inner
inner-content
# endregion: inner
outer-after
# endregion: outer
";
    let inner = extract_region(src, "inner", &["#"]).unwrap();
    assert_eq!(inner.trim(), "inner-content");
}

#[test]
fn extract_lines_range() {
    let src = "one\ntwo\nthree\nfour\nfive\n";
    let out = extract_lines(src, &[(2, 3)]);
    assert_eq!(out, "two\nthree\n");
}

#[test]
fn multiple_line_ranges() {
    let src = "a\nb\nc\nd\ne\n";
    let out = extract_lines(src, &[(1, 2), (4, 4)]);
    assert_eq!(out, "a\nb\nd\n");
}

#[test]
fn bare_flags_and_unknown_keys() {
    let a = CodeBlockAttrs::parse("rust linenums no-copy color=red region=main");
    assert_eq!(a.lang, "rust");
    assert!(a.linenums);
    assert!(a.no_copy);
    assert_eq!(a.linenums_start, 1);
    assert_eq!(a.region.as_deref(), Some("main"));
}

#[test]
fn first_token_with_equals_is_not_a_language() {
    let a = CodeBlockAttrs::parse("title=x");
    assert_eq!(a.lang, "");
    assert_eq!(a.title.as_deref(), Some("x"));
}

#[test]
fn bad_numbers_are_skipped() {
    let a = CodeBlockAttrs::parse(r#"py lines="x,3-y,7" hl_lines="2,5-3,+4""#);
    assert_eq!(a.lines, Some(vec![(7, 7)]));
    assert_eq!(a.hl_lines, vec![2, 4]);
    let b = CodeBlockAttrs::parse(r#"py linenums="start=-1""#);
    assert!(b.linenums);
    assert_eq!(b.linenums_start, 1);
}

#[test]
fn explicit_title_wins_and_auto_uses_file() {
    let a = CodeBlockAttrs::parse(r#"py file="a/b.py" title="T""#);
    assert_eq!(a.effective_title().as_deref(), Some("T"));
    let b = CodeBlockAttrs::parse(r#"py file="a/b.py" title=auto"#);
    assert_eq!(b.effective_title().as_deref(), Some("b.py"));
    let c = CodeBlockAttrs::parse("py");
    assert_eq!(c.effective_title(), None);
}

#[test]
fn region_markers_are_recognised() {
    assert!(is_region_marker("// region: a", &["#", "//"]));
    assert!(is_region_marker("# endregion: b", &["#"]));
    assert!(!is_region_marker("# regions", &["#"]));
}

#[test]
fn missing_region_is_none_and_unclosed_runs_to_end() {
    assert_eq!(extract_region("a\nb\n", "x", &["#"]), None);
    assert_eq!(extract_region("# region: x\na\nb", "x", &["#"]).as_deref(), Some("a\nb\n"));
}

#[test]
fn dedent_keeps_unindented_text_and_blank_lines() {
    assert_eq!(dedent("a\n  b"), "a\n  b");
    assert_eq!(dedent("  a\n\n    b\n"), "a\n\n  b\n");
}

#[test]
fn dedent_counts_bytes_of_wide_whitespace() {
    // U+3000 is three bytes; the shared indentation is two bytes, which
    // falls inside it, so the text cannot be cut.
    assert!(!dedent_fits("  x\n\u{3000}y\n"));
    assert!(dedent_fits("\u{3000}x\n\u{3000}\u{3000}y\n"));
    assert_eq!(dedent("\u{3000}x\n\u{3000}\u{3000}y\n"), "x\n\u{3000}y\n");
}

#[test]
fn include_body_reports_missing_region() {
    let a = CodeBlockAttrs::parse("py region=nope");
    assert!(include_fits("x\n", &a, &["#"]));
    match include_body("docs/x.py", "x\n", &a, &["#"]) {
        Err(FarolError::ConfigInvalid { message }) => {
            assert_eq!(message, "region `nope` not found in docs/x.py")
        }
        other => panic!("unexpected {:?}", other),
    }
}

#[test]
fn include_body_selects_lines_then_dedents() {
    let a = CodeBlockAttrs::parse(r#"py lines="2-3""#);
    let content = "a\n  b\n   c\nd\n";
    assert!(include_fits(content, &a, &["#"]));
    assert_eq!(include_body("f", content, &a, &["#"]).unwrap(), "b\n c\n");
    let bad = CodeBlockAttrs::parse(r#"py lines="9-12""#);
    assert!(!include_fits(content, &bad, &["#"]));
}

#[test]
fn include_paths_resolve_against_the_page() {
    assert_eq!(resolve_path("docs/guide/page.md", "./ex/a.py"), "docs/guide/ex/a.py");
    assert_eq!(resolve_path("docs/page.md", "../src/lib.rs"), "src/lib.rs");
    assert_eq!(resolve_path("page.md", "a.py"), "a.py");
}

#[test]
fn region_opens_only_at_its_own_marker() {
    let src = "# region: outer\nouter-before\n# region: inner\ninner-content\n# endregion: inner\nouter-after\n# endregion: outer\n";
    assert_eq!(extract_region(src, "inn", &["#"]), None);
    assert_eq!(extract_region(src, "inner", &["#"]).as_deref(), Some("inner-content\n"));
    let html = "<!-- region: part -->\n<p>x</p>\n<!-- endregion: part -->\n";
    assert_eq!(extract_region(html, "part", &["<!--"]).as_deref(), Some("<p>x</p>\n"));
}
