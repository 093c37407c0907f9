use farol::nav::{build, humanize, page_segments};
use farol::page::Page;

fn p(rel: &str, title: &str, url: &str, weight: Option<i64>) -> Page {
    let mut fm = toml::Table::new();
    if let Some(w) = weight {
        fm.insert("weight".into(), toml::Value::Integer(w));
    }
    Page {
        relative: rel.to_string(),
        source_abs: format!("/tmp/{rel}"),
        url: url.into(),
        output: "ignored".to_string(),
        title: title.into(),
        frontmatter: fm,
        body_html: String::new(),
        toc: Vec::new(),
        headings: Vec::new(),
        layout: "default".into(),
    }
}

#[test]
fn flat_pages_are_listed() {
    let nav = build(&[p("index.md", "Home", "/", None), p("about.md", "About", "/about/", None)]);
    let titles: Vec<_> = nav.iter().map(|n| n.title.as_str()).collect();
    assert!(titles.contains(&"Home"));
    assert!(titles.contains(&"About"));
}

#[test]
fn subdirs_become_sections() {
    let nav = build(&[
        p("guide/install.md", "Install", "/guide/install/", Some(1)),
        p("guide/config.md", "Config", "/guide/config/", Some(2)),
    ]);
    let guide = nav.iter().find(|n| n.title == "Guide").expect("guide section");
    assert!(guide.is_section());
    assert_eq!(guide.children.len(), 2);
    assert_eq!(guide.children[0].title, "Install");
    assert_eq!(guide.children[1].title, "Config");
}

#[test]
fn weight_controls_order() {
    let nav = build(&[
        p("a.md", "A", "/a/", Some(10)),
        p("b.md", "B", "/b/", Some(1)),
        p("c.md", "C", "/c/", Some(5)),
    ]);
    let titles: Vec<_> = nav.iter().map(|n| n.title.as_str()).collect();
    assert_eq!(titles, vec!["B", "C", "A"]);
}

#[test]
fn section_index_contributes_url() {
    let nav = build(&[
        p("guide/index.md", "Guide overview", "/guide/", Some(1)),
        p("guide/install.md", "Install", "/guide/install/", Some(2)),
    ]);
    let guide = nav.iter().find(|n| n.title == "Guide overview").unwrap();
    assert_eq!(guide.url.as_deref(), Some("/guide/"));
    assert_eq!(guide.children.len(), 1);
}

#[test]
fn humanize_replaces_dashes() {
    assert_eq!(humanize("getting-started"), "Getting started");
    assert_eq!(humanize("api_reference"), "Api reference");
}

#[test]
fn unweighted_pages_follow_and_titles_break_ties() {
    let nav = build(&[
        p("z.md", "Zed", "/z/", None),
        p("b.md", "Beta", "/b/", Some(3)),
        p("a.md", "Alpha", "/a/", Some(3)),
    ]);
    let titles: Vec<_> = nav.iter().map(|n| n.title.as_str()).collect();
    assert_eq!(titles, vec!["Alpha", "Beta", "Zed"]);
    assert_eq!(nav[2].weight, 1073741823);
}

#[test]
fn index_names_attach_to_their_directory() {
    let segs: Vec<String> =
        page_segments("guide/Index.MD").into_iter().map(|s| s.into_iter().collect()).collect();
    assert_eq!(segs, vec!["guide".to_string()]);
    let segs: Vec<String> =
        page_segments("./a/../b/c.md").into_iter().map(|s| s.into_iter().collect()).collect();
    assert_eq!(segs, vec!["a".to_string(), "b".to_string(), "c.md".to_string()]);
    assert_eq!(humanize("my-notes.md"), "My notes");
}
