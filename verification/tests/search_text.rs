use farol::search::{collect_all_tokens, sort_postings, Posting, SearchEntry};
use farol::plugins::reading_time::{count_words, with_reading_time};
use farol::plugins::search::{drop_scripted, strip_page_tags};

#[test]
fn strips_tags_and_keeps_text() {
    let html = "<p>Hello <em>world</em>, this is <code>farol</code>.</p>";
    assert_eq!(strip_page_tags(html), "Hello world, this is farol.");
}

#[test]
fn collapses_whitespace_and_drops_script() {
    let html = "<p>keep</p>\n\n<script>var x = 1;</script><p>also</p>";
    let out = strip_page_tags(html);
    assert!(!out.contains("var x"));
    assert!(out.contains("keep"));
    assert!(out.contains("also"));
}

#[test]
fn entities_are_decoded_in_order() {
    assert_eq!(strip_page_tags("a &amp;lt; b &quot;c&quot; &#39;d&#39;"), "a < b \"c\" 'd'");
    assert_eq!(strip_page_tags("  x \n\t y  "), "x y");
}

#[test]
fn styles_and_unclosed_scripts_are_dropped() {
    assert_eq!(drop_scripted("a<STYLE>b</style>c"), "ac");
    assert_eq!(drop_scripted("a<script>never closed"), "a");
    assert_eq!(drop_scripted("plain"), "plain");
}

#[test]
fn html_tags_dont_count_as_words() {
    let html = "<div class='lots of classes here'><p>one two three</p></div>".to_string();
    assert_eq!(count_words(&html), 3);
}

#[test]
fn short_page_shows_one_minute() {
    let out = with_reading_time("<p>Hello world</p>");
    assert!(out.contains("1 min read"));
}

#[test]
fn longer_page_scales() {
    let words = "word ".repeat(600);
    let html = format!("<p>{words}</p>");
    let out = with_reading_time(&html);
    assert!(out.contains("3 min read"), "unexpected output: {out}");
}

#[test]
fn marker_is_prepended() {
    let out = with_reading_time("<p>original</p>");
    assert!(out.starts_with(r#"<span class="reading-time""#));
    assert!(out.contains("<p>original</p>"));
}

#[test]
fn reading_time_marker_is_exact() {
    let words = "w ".repeat(201);
    let out = with_reading_time(&words);
    assert!(out.starts_with("<span class=\"reading-time\" data-minutes=\"2\">2 min read</span>w "));
    assert_eq!(with_reading_time(""), "<span class=\"reading-time\" data-minutes=\"1\">1 min read</span>");
}

#[test]
fn tokens_are_stemmed_sorted_and_distinct() {
    let entries = vec![
        SearchEntry {
            url: "/a/".into(),
            title: "Running".into(),
            section: None,
            body: "We are running every day".into(),
        },
        SearchEntry { url: "/b/".into(), title: "Walking".into(), section: None, body: "He walks slowly".into() },
    ];
    let toks = collect_all_tokens(&entries);
    assert!(toks.contains(&"run".to_string()));
    assert!(!toks.contains(&"Running".to_string()));
    assert!(!toks.contains(&"running".to_string()));
    let mut sorted = toks.clone();
    sorted.sort();
    sorted.dedup();
    assert_eq!(toks, sorted);
    assert!(collect_all_tokens(&[]).is_empty());
}

#[test]
fn postings_sort_by_score_keeping_ties_in_order() {
    let p = |doc: u32, score: u16| Posting { doc, score };
    let sorted = sort_postings(vec![p(1, 3), p(2, 9), p(3, 3), p(4, 9), p(5, 1), p(6, 3)]);
    assert_eq!(sorted, vec![p(2, 9), p(4, 9), p(1, 3), p(3, 3), p(6, 3), p(5, 1)]);
}
