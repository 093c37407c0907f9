use farol::links::{apply_rewrites, resolve_in_html, set_entry, LinkRewrite};
use farol::toc::build;

fn h(level: u8, t: &str) -> (u8, String, String) {
    (level, t.to_string(), t.to_lowercase())
}

#[test]
fn toc_nests_by_level() {
    let flat = vec![h(1, "Top"), h(2, "A"), h(3, "A1"), h(3, "A2"), h(2, "B"), h(4, "B-deep"), h(3, "B1")];
    let toc = build(&flat, 3);
    assert_eq!(toc.len(), 2);
    assert_eq!(toc[0].title, "A");
    assert_eq!(toc[0].children.len(), 2);
    assert_eq!(toc[0].children[1].slug, "a2");
    assert_eq!(toc[1].title, "B");
    assert_eq!(toc[1].children.len(), 1);
    assert_eq!(toc[1].children[0].title, "B1");
}

#[test]
fn toc_deeper_first_heading_is_a_root() {
    let toc = build(&[h(3, "Deep"), h(2, "Shallow")], 3);
    assert_eq!(toc.len(), 2);
    assert!(toc[0].children.is_empty());
}

#[test]
fn resolves_and_rewrites_links() {
    let html = r#"<a href="./b.md#sec">b</a> <a href="missing.md">m</a> <a href="https://x.y/z.md">e</a>"#;
    let known = vec![("guide/b.md".to_string(), "/guide/b/".to_string())];
    let (rewrites, broken) = resolve_in_html("guide/a.md", html, &known);
    assert_eq!(rewrites.len(), 1);
    assert_eq!(rewrites[0].from, "./b.md#sec");
    assert_eq!(rewrites[0].to, "/guide/b/#sec");
    assert_eq!(broken.len(), 1);
    assert_eq!(broken[0].href, "missing.md");
    assert_eq!(broken[0].page, "guide/a.md");
    assert_eq!(broken[0].reason, "no such page");
    let out = apply_rewrites(html, &rewrites);
    assert!(out.contains(r#"href="/guide/b/#sec""#));
    assert!(out.contains(r#"href="missing.md""#));
}

#[test]
fn apply_rewrites_replaces_every_occurrence() {
    let rw = vec![LinkRewrite { from: "a.md".into(), to: "/a/".into() }];
    let out = apply_rewrites(r#"<a href="a.md">1</a><a href="a.md">2</a>"#, &rw);
    assert_eq!(out, r#"<a href="/a/">1</a><a href="/a/">2</a>"#);
}

#[test]
fn set_entry_replaces_or_appends() {
    let mut known: Vec<(String, String)> = Vec::new();
    set_entry(&mut known, "a.md".to_string(), "/a/".to_string());
    set_entry(&mut known, "b.md".to_string(), "/b/".to_string());
    set_entry(&mut known, "a.md".to_string(), "/a2/".to_string());
    assert_eq!(
        known,
        vec![("a.md".to_string(), "/a2/".to_string()), ("b.md".to_string(), "/b/".to_string())]
    );
    let (rw, broken) = resolve_in_html("index.md", r#"<a href="a.md">A</a>"#, &known);
    assert!(broken.is_empty());
    assert_eq!(rw[0].to, "/a2/");
}
