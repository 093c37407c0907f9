use farol::plugins::code_copy::inject_buttons;
use farol::plugins::edit_on_git::{build_url, with_edit_link};
use farol::plugins::prev_next::{insert_nav, nav_plan, render_nav, PageInfo};
use farol::plugins::redirects::{redirect_dir, redirect_html};
use farol::plugins::sitemap::{robots_txt, sitemap_xml, SitemapPlugin};

fn info(url: &str, title: &str) -> PageInfo {
    PageInfo { url: url.to_string(), title: title.to_string(), output: String::new() }
}

/// What the plugin writes into each page: the patched HTML by page index.
fn patch_all(pages: &Vec<PageInfo>, html: &Vec<String>) -> Vec<String> {
    let mut out = html.clone();
    for (i, prev, next) in nav_plan(pages) {
        let block = render_nav(prev.map(|p| &pages[p]), next.map(|n| &pages[n]));
        out[i] = insert_nav(&html[i], &block);
    }
    out
}

#[test]
fn inserts_nav_on_middle_page() {
    let pages = vec![info("/a/", "a"), info("/b/", "b"), info("/c/", "c")];
    let html: Vec<String> = ["a", "b", "c"].iter().map(|n| format!("<main>{n}</main>")).collect();
    let out = patch_all(&pages, &html);
    let b = &out[1];
    assert!(b.contains(r#"class="prev-next""#));
    assert!(b.contains(r#"href="/a/""#));
    assert!(b.contains(r#"href="/c/""#));
}

#[test]
fn first_page_only_has_next() {
    let pages = vec![info("/b/", "b"), info("/a/", "a")];
    let html = vec!["<main>b</main>".to_string(), "<main>a</main>".to_string()];
    let out = patch_all(&pages, &html);
    let a = &out[1];
    assert!(a.contains(r#"class="prev disabled""#));
    assert!(a.contains(r#"href="/b/""#));
}

#[test]
fn single_page_skips_nav() {
    let pages = vec![info("/", "only")];
    assert!(nav_plan(&pages).is_empty());
}

#[test]
fn nav_plan_orders_by_url_stably() {
    let pages = vec![info("/b/", "1"), info("/a/", "2"), info("/b/", "3")];
    assert_eq!(nav_plan(&pages), vec![(1, None, Some(0)), (0, Some(1), Some(2)), (2, Some(0), None)]);
}

#[test]
fn nav_block_is_exact_and_placed_before_main_end() {
    let p = info("/x?a&b/", "A<B");
    let block = render_nav(Some(&p), None);
    assert_eq!(
        block,
        "<nav class=\"prev-next\" aria-label=\"Page navigation\"><a class=\"prev\" href=\"/x?a&amp;b/\"><span class=\"hint\">Previous</span><span class=\"title\">A&lt;B</span></a><span class=\"next disabled\"></span></nav>"
    );
    assert_eq!(insert_nav("<main>x</main></main>", "N"), "<main>x</main>N</main>");
    assert_eq!(insert_nav("<body>x</body>", "N"), "<body>xN</body>");
    assert_eq!(insert_nav("x", "N"), "xN");
}

#[test]
fn copy_buttons_wrap_pre_blocks() {
    let out = inject_buttons("a<pre>x</pre>b");
    assert_eq!(
        out,
        "a<div class=\"code-copy-wrap\"><button class=\"code-copy\" type=\"button\" aria-label=\"Copy code\">Copy</button><pre>x</pre></div>b"
    );
    assert_eq!(inject_buttons("<p>no code</p>"), "<p>no code</p>");
    let open = inject_buttons("<pre>unclosed");
    assert!(open.ends_with("Copy</button><pre>unclosed"));
}

#[test]
fn edit_links() {
    assert_eq!(
        build_url(Some("https://git.example/r/"), None, "guide\\a.md").as_deref(),
        Some("https://git.example/r/edit/main/docs/guide/a.md")
    );
    assert_eq!(
        build_url(Some("https://x"), Some("/blob/dev/"), "a.md").as_deref(),
        Some("https://x/blob/dev/a.md")
    );
    assert_eq!(build_url(None, Some("e"), "a.md"), None);
    let link = "<a class=\"edit-on-git\" href=\"u?a=1&amp;b=&quot;2&quot;\" target=\"_blank\" rel=\"noopener noreferrer\">Edit this page</a>";
    assert_eq!(with_edit_link("<p>x</p>", "u?a=1&b=\"2\""), format!("<p>x</p>{link}"));
    assert_eq!(
        with_edit_link("<main>x</main><footer></footer></body>", "u?a=1&b=\"2\""),
        format!("<main>x{link}</main><footer></footer></body>")
    );
    assert_eq!(
        with_edit_link("<body>x</body>", "u?a=1&b=\"2\""),
        format!("<body>x{link}</body>")
    );
}

#[test]
fn redirect_pages() {
    assert_eq!(redirect_dir("/old/path/"), "old/path");
    assert_eq!(redirect_dir("/"), "");
    let html = redirect_html("/new?a=1&b=<2>");
    assert!(html.contains("<link rel=\"canonical\" href=\"/new?a=1&amp;b=&lt;2&gt;\">"));
    assert!(html.contains("content=\"0; url=/new?a=1&amp;b=&lt;2&gt;\""));
    assert!(html.starts_with("<!doctype html>\n"));
}

#[test]
fn sitemap_and_robots() {
    assert_eq!(SitemapPlugin::name_str(), "sitemap");
    let xml = sitemap_xml(Some("https://s.example/"), &vec!["/a/".to_string(), "/".to_string()]);
    assert_eq!(
        xml,
        "<?xml version=\"1.0\" encoding=\"UTF-8\"?>\n<urlset xmlns=\"http://www.sitemaps.org/schemas/sitemap/0.9\">\n  <url><loc>https://s.example/a/</loc></url>\n  <url><loc>https://s.example/</loc></url>\n</urlset>\n"
    );
    assert_eq!(robots_txt(None), "User-agent: *\nAllow: /\n");
    assert_eq!(
        robots_txt(Some("https://s.example//")),
        "User-agent: *\nAllow: /\nSitemap: https://s.example/sitemap.xml\n"
    );
}
