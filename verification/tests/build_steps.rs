use farol::graph::{outcome_for, tally, total_nodes, NodeOutcome};
use farol::images::{image_outputs, output_url, undecoded_meta};
use farol::order::pair_order;
use farol::page::Page;
use farol::pipeline::nav_summary_bytes;

#[test]
fn image_outputs_sit_beside_the_source() {
    let o = image_outputs("img/Logo.PNG", "0a1b2c3d");
    assert_eq!(o.ext, "png");
    assert_eq!(o.original_rel, "img/Logo.0a1b2c3d.png");
    assert_eq!(o.webp_rel.as_deref(), Some("img/Logo.0a1b2c3d.webp"));
    assert_eq!(output_url(&o.original_rel), "/img/Logo.0a1b2c3d.png");
}

#[test]
fn webp_sources_get_no_webp_copy() {
    let o = image_outputs("photo.webp", "ffff0000");
    assert_eq!(o.original_rel, "photo.ffff0000.webp");
    assert!(o.webp_rel.is_none());
}

#[test]
fn image_without_extension() {
    let o = image_outputs("a/b/raw", "12345678");
    assert_eq!(o.ext, "");
    assert_eq!(o.original_rel, "a/b/raw.12345678.");
    assert_eq!(o.webp_rel.as_deref(), Some("a/b/raw.12345678.webp"));
}

#[test]
fn undecoded_image_keeps_only_its_copy() {
    let m = undecoded_meta("/x.1.png".to_string(), "image/png");
    assert_eq!(m.original_url, "/x.1.png");
    assert!(m.webp_url.is_none());
    assert_eq!(m.lqip, "");
    assert_eq!((m.width, m.height), (0, 0));
    assert_eq!(m.mime, "image/png");
}

#[test]
fn tally_counts_hits_and_misses() {
    let outcomes = vec![outcome_for(true), outcome_for(false), outcome_for(true)];
    assert_eq!(outcomes, vec![NodeOutcome::Hit, NodeOutcome::Miss, NodeOutcome::Hit]);
    let (h, m) = tally(&outcomes);
    assert_eq!((h, m), (2, 1));
    assert_eq!(total_nodes(h, m), 3);
    assert_eq!(tally(&[]), (0, 0));
}

#[test]
fn pair_order_sorts_by_url_then_title() {
    let us = vec!["/b/".to_string(), "/a/".to_string(), "/b/".to_string(), "/a/".to_string()];
    let ts = vec!["Z".to_string(), "Y".to_string(), "A".to_string(), "Y".to_string()];
    assert_eq!(pair_order(&us, &ts), vec![1, 3, 2, 0]);
}

fn page(url: &str, title: &str) -> Page {
    Page {
        relative: "x.md".into(),
        source_abs: "/tmp/x.md".into(),
        url: url.into(),
        output: "x/index.html".into(),
        title: title.into(),
        frontmatter: toml::Table::new(),
        body_html: String::new(),
        toc: Vec::new(),
        headings: Vec::new(),
        layout: "default".into(),
    }
}

#[test]
fn nav_summary_ignores_page_order() {
    let a = vec![page("/a/", "A"), page("/b/", "B"), page("/", "Home")];
    let b = vec![page("/", "Home"), page("/b/", "B"), page("/a/", "A")];
    let sa = nav_summary_bytes(&a);
    assert_eq!(sa.len(), 32);
    assert_eq!(sa, nav_summary_bytes(&b));
    let renamed = vec![page("/a/", "A (renamed)"), page("/b/", "B"), page("/", "Home")];
    assert_ne!(sa, nav_summary_bytes(&renamed));
}

#[test]
fn paths_sort_by_components() {
    let rels: Vec<String> =
        ["b.md", "a/z.md", "a.md", "a-b.md", "a/b.md"].iter().map(|s| s.to_string()).collect();
    assert_eq!(farol::order::path_order(&rels), vec![4, 1, 3, 2, 0]);
    let dup: Vec<String> = ["x/y", "x//y", "w"].iter().map(|s| s.to_string()).collect();
    assert_eq!(farol::order::path_order(&dup), vec![2, 0, 1]);
}
