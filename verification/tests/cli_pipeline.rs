use farol::cli::{
    config_and_root, module_name, plugin_readme, plugin_slug, plugin_test_py, pyproject_toml,
    tracing_level, PLUGIN_INIT,
};
use farol::config::{parse_error, Config};
use farol::error::FarolError;
use farol::pipeline::{page_layout, page_title, render_input_hash, theme_summary_bytes, title_guess};
use farol::search::{make_snippet, materialize_docs, sort_postings, Posting, SearchEntry};
use farol::serve::{
    error_overlay_html, inject_reload_script, mime_type, path_starts_with_exec, sanitize,
    triggers_rebuild,
};

#[test]
fn plugin_names() {
    assert_eq!(plugin_slug("  farol-plugin-My Cool_Plugin! ").as_deref(), Some("my-cool-plugin"));
    assert_eq!(plugin_slug("farol-plugin-farol-plugin-x").as_deref(), Some("x"));
    assert_eq!(plugin_slug("***"), None);
    assert_eq!(module_name("my-cool-plugin"), "farol_plugin_my_cool_plugin");
    let py = pyproject_toml("x", "farol_plugin_x");
    assert!(py.contains("name = \"farol-plugin-x\""));
    assert!(py.contains("x = \"farol_plugin_x\""));
    assert!(plugin_readme("x").starts_with("# farol-plugin-x\n"));
    assert!(plugin_test_py("farol_plugin_x").contains("from farol_plugin_x import on_page_markdown"));
    assert!(PLUGIN_INIT.contains("@hookimpl"));
}

#[test]
fn log_levels_and_config_paths() {
    assert_eq!(tracing_level(0, false), "warn");
    assert_eq!(tracing_level(1, false), "info");
    assert_eq!(tracing_level(2, false), "debug");
    assert_eq!(tracing_level(9, false), "trace");
    assert_eq!(tracing_level(3, true), "error");
    assert_eq!(config_and_root(None), ("farol.toml".to_string(), "".to_string()));
    assert_eq!(config_and_root(Some("site/conf.toml")), ("site/conf.toml".to_string(), "site".to_string()));
    assert_eq!(config_and_root(Some("/")).1, ".");
}

#[test]
fn config_defaults_and_errors() {
    let c = Config::default();
    assert_eq!(c.site_name, "My Docs");
    assert!(c.validate().is_ok());
    match parse_error("farol.toml", "abc", Some((1, 3)), "bad".to_string()) {
        FarolError::ConfigParse { offset, len, help, message, .. } => {
            assert_eq!((offset, len), (1, 2));
            assert_eq!(help.as_deref(), Some("check the syntax and make sure all keys are recognized"));
            assert_eq!(message, "bad");
        }
        _ => panic!("expected a parse error"),
    }
    match parse_error("f", "", None, "m".to_string()) {
        FarolError::ConfigParse { offset, len, .. } => assert_eq!((offset, len), (0, 0)),
        _ => panic!("expected a parse error"),
    }
}

#[test]
fn titles_and_layouts() {
    let mut fm = toml::Table::new();
    assert_eq!(page_title(&fm, Some("H1".to_string()), "a/b.md"), "H1");
    assert_eq!(page_title(&fm, None, "a/b.md"), "b");
    assert_eq!(title_guess(&fm, ".."), "untitled");
    assert_eq!(page_layout(&fm), "default");
    fm.insert("title".into(), toml::Value::String("T".into()));
    fm.insert("layout".into(), toml::Value::String("wide".into()));
    assert_eq!(page_title(&fm, Some("H1".to_string()), "a/b.md"), "T");
    assert_eq!(title_guess(&fm, "a/b.md"), "T");
    assert_eq!(page_layout(&fm), "wide");
}

#[test]
fn render_hash_changes_with_inputs() {
    let a = render_input_hash("/a/", "A", "<p>x</p>", &[1], &[2]);
    let b = render_input_hash("/a/", "A", "<p>y</p>", &[1], &[2]);
    assert_ne!(a, b);
    assert_eq!(a, render_input_hash("/a/", "A", "<p>x</p>", &[1], &[2]));
    let c = Config::default();
    assert_eq!(theme_summary_bytes(&c).len(), 32);
}

#[test]
fn dev_server_helpers() {
    assert_eq!(sanitize("a/../b/./c//d"), "a/b/c/d");
    assert_eq!(sanitize(""), "");
    assert_eq!(mime_type("x/INDEX.HTML"), "text/html; charset=utf-8");
    assert_eq!(mime_type("a.woff2"), "font/woff2");
    assert_eq!(mime_type("noext"), "application/octet-stream");
    let page = inject_reload_script("<body>x</body>");
    assert!(page.starts_with("<body>x<script>"));
    assert!(page.ends_with("</script></body>"));
    assert!(inject_reload_script("x").starts_with("x<script>"));
    let overlay = error_overlay_html("a<b");
    assert!(overlay.contains("<pre>a&lt;b</pre>"));
    assert!(path_starts_with_exec("/p/site/x.html", "/p/site"));
    assert!(!path_starts_with_exec("/p/sitemap.xml", "/p/site"));
    assert!(triggers_rebuild(&vec!["/p/docs/a.md".to_string()], "/p/site"));
    assert!(!triggers_rebuild(&vec!["/p/site/a.html".to_string()], "/p/site"));
}

#[test]
fn snippet_is_truncated() {
    let body = "a".repeat(500);
    let s = make_snippet(&body, 160);
    assert!(s.chars().count() < 200);
    assert!(s.ends_with('…'));
    assert_eq!(make_snippet("  short  ", 160), "short");
}

#[test]
fn search_records_and_postings() {
    let entries = vec![
        SearchEntry { url: "/a/".into(), title: "A".into(), section: None, body: " hi ".into() },
        SearchEntry { url: "/b/".into(), title: "B".into(), section: Some("s".into()), body: "x".into() },
    ];
    let docs = materialize_docs(&entries);
    assert_eq!(docs.len(), 2);
    assert_eq!(docs[1].id, 1);
    assert_eq!(docs[0].snippet, "hi");
    assert_eq!(docs[1].section.as_deref(), Some("s"));
    let sorted = sort_postings(vec![
        Posting { doc: 0, score: 5 },
        Posting { doc: 1, score: 9 },
        Posting { doc: 2, score: 5 },
    ]);
    assert_eq!(sorted, vec![Posting { doc: 1, score: 9 }, Posting { doc: 0, score: 5 }, Posting { doc: 2, score: 5 }]);
}

#[test]
fn render_hash_follows_body_and_summaries() {
    let ts = [1u8; 32];
    let ns = [2u8; 32];
    let base = render_input_hash("/a/", "A", "<p>x</p>", &ts, &ns);
    assert_eq!(base, render_input_hash("/a/", "A", "<p>x</p>", &ts, &ns));
    assert_ne!(base, render_input_hash("/a/", "A", "<p>y</p>", &ts, &ns));
    assert_ne!(base, render_input_hash("/a/", "A", "<p>x</p>", &[3u8; 32], &ns));
    assert_ne!(base, render_input_hash("/a/", "A", "<p>x</p>", &ts, &[4u8; 32]));
}
