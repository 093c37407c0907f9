use farol::slug::{slugify, unique_slug};

#[test]
fn slug_lowercases_and_hyphenates() {
    assert_eq!(slugify("Hello World"), "hello-world");
    assert_eq!(slugify("  Leading space"), "leading-space");
    assert_eq!(slugify("Trailing   "), "trailing");
    assert_eq!(slugify("a_b-c"), "a_b-c");
    assert_eq!(slugify("What's new?"), "whats-new");
    assert_eq!(slugify("ends with dash -"), "ends-with-dash");
    assert_eq!(slugify("Ünïcode Straße"), "ünïcode-straße");
}

#[test]
fn unique_slug_appends_counters() {
    let mut seen = Vec::new();
    assert_eq!(unique_slug("Same", &mut seen), "same");
    assert_eq!(unique_slug("Same", &mut seen), "same-1");
    assert_eq!(unique_slug("same", &mut seen), "same-2");
    assert_eq!(unique_slug("Other", &mut seen), "other");
    assert_eq!(seen.len(), 4);
}

#[test]
fn unique_slug_skips_taken_counters() {
    let mut seen = vec!["x".to_string(), "x-1".to_string()];
    assert_eq!(unique_slug("X", &mut seen), "x-2");
}

#[test]
fn slugify_twice_is_slugify_once() {
    for text in ["Hello World", "  API -- Reference_v2!  ", "What's NEW?", "a - b", "--x--", ""] {
        let once = slugify(text);
        assert_eq!(slugify(&once), once);
    }
    assert_eq!(slugify("  API -- Reference_v2!  "), "api----reference_v2");
}
