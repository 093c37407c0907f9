use farol::plugins::containers::transform;

fn run(md: &str) -> String {
    let mut group: u64 = 0;
    transform(md, &mut group)
}

#[test]
fn tabs_wraps_sections() {
    let md = "::: tabs\n### Python\n```python\nprint(1)\n```\n\n### Rust\n```rust\nfn main() {}\n```\n:::\n";
    let out = run(md);
    assert!(out.contains("farol-tabs"));
    assert!(out.contains(r#"data-tab="0""#));
    assert!(out.contains(r#"data-tab="1""#));
    assert!(out.contains("Python"));
    assert!(out.contains("Rust"));
    assert!(out.contains("```python"));
    assert!(out.contains("```rust"));
}

#[test]
fn files_wraps_sections() {
    let md =
        "::: files\n#### config.toml\n```toml\nkey = 1\n```\n\n#### main.py\n```python\nprint(1)\n```\n:::\n";
    let out = run(md);
    assert!(out.contains("farol-files"));
    assert!(out.contains("file-label"));
    assert!(out.contains("config.toml"));
    assert!(out.contains("main.py"));
}

#[test]
fn unterminated_container_left_alone() {
    let md = "::: tabs\n### Python\n```py\nx\n```\nno-end\n";
    let out = run(md);
    assert!(out.contains("::: tabs"));
}

#[test]
fn unknown_container_passes_through() {
    let md = "::: whatever\ncontent\n:::\n";
    let out = run(md);
    assert!(out.contains("::: whatever"));
}

#[test]
fn nested_content_preserved() {
    let md = "before\n::: tabs\n### A\nhello\n### B\nworld\n:::\nafter\n";
    let out = run(md);
    assert!(out.starts_with("before"));
    assert!(out.contains("hello"));
    assert!(out.contains("world"));
    assert!(out.trim_end().ends_with("after"));
}

#[test]
fn tabs_render_exactly_and_advance_the_group() {
    let mut group: u64 = 7;
    let out = transform("::: tabs\n### A & B\nx\n:::\n", &mut group);
    assert_eq!(
        out,
        "<div class=\"farol-tabs\" data-group=\"7\"><div class=\"tab-buttons\" role=\"tablist\">\
<button type=\"button\" class=\"tab-button active\" role=\"tab\" data-tab=\"0\">A &amp; B</button></div>\
<div class=\"tab-panels\"><div class=\"tab-panel active\" data-tab=\"0\">\n\nx\n</div></div></div>\n"
    );
    assert_eq!(group, 8);
}

#[test]
fn files_leave_the_group_alone() {
    let mut group: u64 = 3;
    let out = transform("::: files\n#### a.txt\nbody\n:::\n", &mut group);
    assert_eq!(
        out,
        "<div class=\"farol-files\"><div class=\"file-entry\"><div class=\"file-label\">a.txt</div>\n\nbody\n</div></div>\n"
    );
    assert_eq!(group, 3);
}

#[test]
fn container_without_sections_keeps_its_body() {
    let out = run("::: tabs\nplain\n:::\nafter\n");
    assert_eq!(out, "plain\nafter\n");
}

#[test]
fn markdown_without_containers_is_unchanged() {
    let md = "# Title\n\nplain text\n```rust\nfn main() {}\n```\n::: note\nnot a container\n:::\n";
    let mut group: u64 = 7;
    let out = transform(md, &mut group);
    assert_eq!(out, md);
    assert_eq!(group, 7);
}
