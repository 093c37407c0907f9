use farol::markdown::parse;
use farol::plugins::anchor_links::{anchor_slugs, inject_anchors_with};
use farol::plugins::anchor_links::inject_anchors;

#[test]
fn injects_id_and_anchor() {
    let html = "<h2>Hello World</h2>";
    let out = inject_anchors(html);
    assert!(out.contains(r#"id="hello-world""#));
    assert!(out.contains(r##"href="#hello-world""##));
    assert!(out.contains("heading-anchor"));
}

#[test]
fn h3_supported() {
    let out = inject_anchors("<h3>Sub</h3>");
    assert!(out.contains(r#"<h3 id="sub">"#));
}

#[test]
fn duplicates_get_suffixes() {
    let out = inject_anchors("<h2>Same</h2><h2>Same</h2>");
    assert!(out.contains(r#"id="same""#));
    assert!(out.contains(r#"id="same-1""#));
}

#[test]
fn preserves_inline_markup() {
    let out = inject_anchors("<h2>Hello <em>world</em></h2>");
    assert!(out.contains(r#"id="hello-world""#));
    assert!(out.contains("<em>world</em>"));
}

#[test]
fn leaves_other_content_alone() {
    let out = inject_anchors("<p>nothing</p>");
    assert_eq!(out, "<p>nothing</p>");
}

#[test]
fn anchored_heading_is_exact() {
    let out = inject_anchors("<h4>A b</h4>x");
    assert_eq!(
        out,
        "<h4 id=\"a-b\">A b<a class=\"heading-anchor\" href=\"#a-b\" aria-label=\"Permalink\">#</a></h4>x"
    );
}

#[test]
fn h1_and_unclosed_headings_are_copied() {
    assert_eq!(inject_anchors("<h1>Top</h1>"), "<h1>Top</h1>");
    assert_eq!(inject_anchors("<h2>open"), "<h2>open");
}

#[test]
fn third_repeat_gets_two() {
    let out = inject_anchors("<h2>X</h2><h3>X</h3><h4>X</h4>");
    assert!(out.contains(r#"id="x""#));
    assert!(out.contains(r#"id="x-1""#));
    assert!(out.contains(r#"id="x-2""#));
}

#[test]
fn anchors_take_the_toc_slugs() {
    let r = parse("# Intro\n\n## Intro\n\n### Setup\n", "p.md").unwrap();
    let slugs = anchor_slugs(&r.headings);
    assert_eq!(slugs, vec!["intro-1".to_string(), "setup".to_string()]);
    let out = inject_anchors_with(&r.html, &slugs);
    assert!(out.contains("<h2 id=\"intro-1\">"));
    assert!(out.contains("<h3 id=\"setup\">"));
    assert!(out.contains("<h1>Intro</h1>"));
}

#[test]
fn inject_anchors_counts_every_heading_like_the_toc() {
    let r = parse("# Intro\n\n## Intro\n\n### Setup\n\n##### Intro\n\n#### Intro\n", "p.md").unwrap();
    let slugs = anchor_slugs(&r.headings);
    assert_eq!(slugs, vec!["intro-1".to_string(), "setup".to_string(), "intro-3".to_string()]);
    let out = inject_anchors(&r.html);
    assert!(out.contains("<h1>Intro</h1>"));
    assert!(out.contains("<h2 id=\"intro-1\">"));
    assert!(out.contains("<h3 id=\"setup\">"));
    assert!(out.contains("<h5>Intro</h5>"));
    assert!(out.contains("<h4 id=\"intro-3\">"));
    assert_eq!(out, inject_anchors_with(&r.html, &slugs));
}
