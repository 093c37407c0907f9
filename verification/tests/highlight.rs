use farol::plugins::code_include::CodeBlockAttrs;
use farol::plugins::highlight::{
    apply_hl_lines, assemble_fenced, comment_prefixes_for, extract_marker, fenced_pieces,
    line_class, needs_include, render_block, FencePiece, HighlightPlugin, LineMarker,
};

#[test]
fn line_classes() {
    assert_eq!(line_class(&LineMarker::Mark, false), "line mark");
    assert_eq!(line_class(&LineMarker::Plain, true), "line dim");
    assert_eq!(line_class(&LineMarker::Plain, false), "line");
    assert_eq!(line_class(&LineMarker::Focus, true), "line focus");
}

#[test]
fn markers_are_read_and_removed() {
    let (m, clean) = extract_marker("let x = 1; // !add\n", &["//"]);
    assert_eq!(m, LineMarker::Add);
    assert_eq!(clean, "let x = 1;\n");
    let (m, clean) = extract_marker("x = 1  # !focus\r\n", &["//", "#"]);
    assert_eq!(m, LineMarker::Focus);
    assert_eq!(clean, "x = 1\r\n");
    let (m, clean) = extract_marker("y # not a marker\n", &["#"]);
    assert_eq!(m, LineMarker::Plain);
    assert_eq!(clean, "y # not a marker\n");
}

#[test]
fn prefixes_by_language() {
    assert_eq!(comment_prefixes_for("Rust"), vec!["//"]);
    assert_eq!(comment_prefixes_for("py"), vec!["#"]);
    assert_eq!(comment_prefixes_for("SQL"), vec!["--"]);
    assert_eq!(comment_prefixes_for("html"), vec!["<!--"]);
    assert_eq!(comment_prefixes_for("css"), vec!["/*"]);
    assert_eq!(comment_prefixes_for("unknown"), vec!["//", "#"]);
}

#[test]
fn hl_lines_only_mark_unmarked_lines() {
    let mut ms = vec![LineMarker::Plain, LineMarker::Add, LineMarker::Plain];
    apply_hl_lines(&mut ms, &vec![0, 2, 9]);
    assert_eq!(ms, vec![LineMarker::Mark, LineMarker::Add, LineMarker::Plain]);
}

#[test]
fn block_html_is_exact() {
    let attrs = CodeBlockAttrs::parse(r#"py linenums="start=7" title="a<b" no-copy"#);
    let out = render_block(
        &attrs,
        &["x".to_string(), "y".to_string()],
        &[LineMarker::Mark, LineMarker::Plain],
        false,
    );
    assert_eq!(
        out,
        "<div class=\"farol-codeblock with-linenums no-copy\" data-lang=\"py\">\
<div class=\"codeblock-header\"><span class=\"filename\">a&lt;b</span></div><pre><code>\
<span class=\"line mark\"><span class=\"linenum\">7</span>x</span>\
<span class=\"line\"><span class=\"linenum\">8</span>y</span></code></pre></div>"
    );
}

#[test]
fn unknown_language_is_escaped_plainly() {
    let plugin = HighlightPlugin::new();
    let attrs = CodeBlockAttrs::parse("nosuchlang");
    let out = plugin.render_code(&attrs, "a < b // !mark\nc\n");
    assert!(out.contains("<span class=\"line mark\">a &lt; b\n</span>"));
    assert!(out.contains("<span class=\"line\">c\n</span>"));
}

#[test]
fn known_language_is_highlighted() {
    let plugin = HighlightPlugin::new();
    let attrs = CodeBlockAttrs::parse("rust");
    let out = plugin.render_code(&attrs, "fn main() {}\n");
    assert!(out.starts_with("<div class=\"farol-codeblock\" data-lang=\"rust\">"));
    assert!(out.contains("style="));
}

#[test]
fn fences_are_split_out() {
    let md = "intro\n```py title=\"t\"\nx = 1\n```\nafter";
    let pieces = fenced_pieces(md);
    assert_eq!(pieces.len(), 3);
    match &pieces[1] {
        FencePiece::Fence { info, code } => {
            assert_eq!(info, "py title=\"t\"");
            assert_eq!(code, "x = 1\n");
        }
        FencePiece::Text(_) => panic!("expected a fence"),
    }
    let out = assemble_fenced(&pieces, &vec!["<B>".to_string()]);
    assert_eq!(out, "intro\n<B>\nafter");
}

#[test]
fn unclosed_fence_is_text() {
    let md = "a\n```\nno close\n";
    let pieces = fenced_pieces(md);
    let out = assemble_fenced(&pieces, &vec![]);
    assert_eq!(out, md);
}

#[test]
fn include_needed_only_for_blank_bodies() {
    let a = CodeBlockAttrs::parse(r#"py file="x.py""#);
    assert!(needs_include(&a, "  \n"));
    assert!(!needs_include(&a, "print(1)\n"));
    assert!(!needs_include(&CodeBlockAttrs::parse("py"), ""));
}
