use farol::cache::make_key;
use farol::error::FarolError;
use farol::page::Page;
use farol::theme::manifest::{
    default_true, validate_version, version_satisfies, AssetsConfig, LayoutsConfig, ThemeManifest,
    ThemeMetadata,
};
use farol::theme::{theme_dir, validate_layouts};

fn manifest(min: &str, layouts: &[&str]) -> ThemeManifest {
    ThemeManifest {
        theme: ThemeMetadata {
            name: "test".to_string(),
            version: "0.1.0".to_string(),
            min_farol_version: min.to_string(),
            description: None,
            authors: Vec::new(),
            license: None,
            layouts: LayoutsConfig { supported: layouts.iter().map(|s| s.to_string()).collect() },
            assets: AssetsConfig::default(),
        },
    }
}

fn page(rel: &str, layout: &str) -> Page {
    Page {
        relative: rel.to_string(),
        source_abs: format!("/tmp/{rel}"),
        url: "/".to_string(),
        output: "index.html".to_string(),
        title: "t".to_string(),
        frontmatter: toml::Table::new(),
        body_html: String::new(),
        toc: Vec::new(),
        headings: Vec::new(),
        layout: layout.to_string(),
    }
}

#[test]
fn version_check() {
    assert!(version_satisfies("0.0.3", "0.0.3"));
    assert!(version_satisfies("0.1.0", "0.0.3"));
    assert!(!version_satisfies("0.0.2", "0.0.3"));
}

#[test]
fn versions_compare_numerically_and_default_to_zero() {
    assert!(version_satisfies("0.10.0", "0.9.9"));
    assert!(version_satisfies("1", "0.9"));
    assert!(version_satisfies("x.y.z", "0.0.0"));
    assert!(!version_satisfies("1.2", "1.2.1"));
}

#[test]
fn too_old_engine_is_refused() {
    let m = manifest("9.0.0", &["default"]);
    match validate_version(&m, "0.1.0") {
        Err(FarolError::ConfigInvalid { message }) => assert_eq!(
            message,
            "theme `test` requires farol >= 9.0.0 but current version is 0.1.0"
        ),
        _ => panic!("expected an error"),
    }
    assert!(validate_version(&manifest("0.0.1", &[]), "0.1.0").is_ok());
}

#[test]
fn unsupported_layouts_are_reported() {
    let m = manifest("0.0.1", &["default", "landing"]);
    assert!(validate_layouts(&m, &[page("a.md", "default"), page("b.md", "landing")]).is_ok());
    match validate_layouts(&m, &[page("a.md", "default"), page("b.md", "wide")]) {
        Err(FarolError::ConfigInvalid { message }) => assert_eq!(
            message,
            "page `b.md` uses layout `wide` which is not supported by theme `test` (supported: [\"default\", \"landing\"])"
        ),
        _ => panic!("expected an error"),
    }
}

#[test]
fn asset_defaults() {
    assert!(default_true());
    let a = AssetsConfig::default();
    assert!(a.shared_js && a.css.is_empty() && a.js.is_empty());
}

#[test]
fn theme_dirs() {
    assert_eq!(theme_dir("/abs/t", "/proj"), "/abs/t");
    assert_eq!(theme_dir("themes/t", "/proj"), "/proj/themes/t");
    assert_eq!(theme_dir("t", "/proj/"), "/proj/t");
}

#[test]
fn different_ids_do_not_collide() {
    let a = make_key("page-a", &[1, 2]);
    let b = make_key("page-b", &[1, 2]);
    assert_ne!(a, b);
    assert_eq!(make_key("ab", &[7]), vec![b'a', b'b', 0, 7]);
}
