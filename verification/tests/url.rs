use farol::url::{classify_link, normalize, output_path_for, resolve_internal, site_url_for, LinkKind};

#[test]
fn root_index() {
    assert_eq!(site_url_for("index.md"), "/");
}

#[test]
fn pretty_url_for_page() {
    assert_eq!(site_url_for("guide/install.md"), "/guide/install/");
}

#[test]
fn nested_index() {
    assert_eq!(site_url_for("guide/index.md"), "/guide/");
}

#[test]
fn preserves_assets() {
    assert_eq!(site_url_for("img/logo.png"), "/img/logo.png/");
}

#[test]
fn output_paths() {
    assert_eq!(output_path_for("/"), "index.html");
    assert_eq!(output_path_for("/guide/install/"), "guide/install/index.html");
}

#[test]
fn classifies_links() {
    assert_eq!(classify_link("https://example.com"), LinkKind::External);
    assert_eq!(classify_link("mailto:a@b.com"), LinkKind::External);
    assert_eq!(classify_link("#section"), LinkKind::Anchor);
    assert_eq!(classify_link("./other.md"), LinkKind::InternalMarkdown("./other.md"));
    assert_eq!(classify_link("../img/logo.png"), LinkKind::InternalOther("../img/logo.png"));
}

#[test]
fn resolves_relative_markdown() {
    let (rel, anchor) = resolve_internal("guide/install.md", "../index.md").unwrap();
    assert_eq!(rel, "index.md");
    assert_eq!(anchor, None);
}

#[test]
fn resolves_with_anchor() {
    let (rel, anchor) = resolve_internal("guide/install.md", "config.md#env").unwrap();
    assert_eq!(rel, "guide/config.md");
    assert_eq!(anchor.as_deref(), Some("env"));
}

#[test]
fn uppercase_markdown_extension_is_a_page() {
    assert_eq!(site_url_for("Guide/Intro.MD"), "/Guide/Intro/");
    assert_eq!(classify_link("x.Markdown#a"), LinkKind::InternalMarkdown("x.Markdown#a"));
}

#[test]
fn protocol_relative_links_are_external() {
    assert_eq!(classify_link("//cdn.example.com/x.md"), LinkKind::External);
}

#[test]
fn dotfiles_have_no_extension() {
    assert_eq!(site_url_for(".md"), "/.md/");
    assert_eq!(classify_link(".md"), LinkKind::InternalOther(".md"));
}

#[test]
fn normalize_folds_dots() {
    assert_eq!(normalize("a/./b/../c"), "a/c");
    assert_eq!(normalize("/x/../../y"), "/y");
    assert_eq!(normalize("../z"), "z");
}

#[test]
fn absolute_link_ignores_page_dir() {
    let (rel, _) = resolve_internal("guide/install.md", "/other.md").unwrap();
    assert_eq!(rel, "/other.md");
}

#[test]
fn output_path_trims_slashes() {
    assert_eq!(output_path_for("///a//"), "a/index.html");
    assert_eq!(output_path_for(""), "index.html");
}

#[test]
fn markdown_page_output_follows_its_url() {
    assert_eq!(output_path_for(&site_url_for("guide/install.md")), "guide/install/index.html");
    assert_eq!(output_path_for(&site_url_for("guide/index.md")), "guide/index.html");
    assert_eq!(output_path_for(&site_url_for("index.md")), "index.html");
    assert_eq!(output_path_for(&site_url_for("a/b/Notes.MARKDOWN")), "a/b/Notes/index.html");
    assert_eq!(output_path_for(&site_url_for("top.md")), "top/index.html");
}

#[test]
fn nested_markdown_pages_land_in_their_directories() {
    assert_eq!(output_path_for(&site_url_for("d1/d2/page.Md")), "d1/d2/page/index.html");
    assert_eq!(output_path_for(&site_url_for("d1/d2/index.markdown")), "d1/d2/index.html");
    assert_eq!(output_path_for(&site_url_for("v1.2/notes.md")), "v1.2/notes/index.html");
}
