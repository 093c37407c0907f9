use farol::plugins::admonitions::transform;

#[test]
fn note_alert_is_transformed() {
    let input = "<blockquote>\n<p>[!NOTE]<br />\nHello world</p>\n</blockquote>";
    let out = transform(input);
    assert!(out.contains(r#"<div class="admonition note">"#));
    assert!(out.contains(r#"<div class="admonition-title">Note</div>"#));
    assert!(out.contains("Hello world"));
}

#[test]
fn unknown_tag_is_left_alone() {
    let input = "<blockquote>\n<p>[!MYSTERY]<br />\nHello</p>\n</blockquote>";
    let out = transform(input);
    assert!(out.contains("<blockquote>"));
    assert!(!out.contains("admonition"));
}

#[test]
fn plain_blockquote_unchanged() {
    let input = "<blockquote>\n<p>normal quote</p>\n</blockquote>";
    let out = transform(input);
    assert_eq!(out, input);
}

#[test]
fn multiple_alerts_transformed() {
    let input = "<blockquote>\n<p>[!NOTE]<br />\nfirst</p>\n</blockquote><p>gap</p>\
        <blockquote>\n<p>[!WARNING]<br />\nsecond</p>\n</blockquote>";
    let out = transform(input);
    assert!(out.contains("admonition note"));
    assert!(out.contains("admonition warning"));
    assert!(out.contains("<p>gap</p>"));
}

#[test]
fn case_insensitive() {
    let input = "<blockquote>\n<p>[!note]<br />\nlower</p>\n</blockquote>";
    let out = transform(input);
    assert!(out.contains("admonition note"));
}

#[test]
fn exact_admonition_output() {
    let input = "a<blockquote>\n<p>[!TIP]<br />\nDo it</p>\n</blockquote>b";
    assert_eq!(
        transform(input),
        "a<div class=\"admonition tip\"><div class=\"admonition-title\">Tip</div>Do it</p>\n</div>b"
    );
}

#[test]
fn unclosed_blockquote_is_copied() {
    let input = "x<blockquote><p>[!NOTE] y";
    assert_eq!(transform(input), input);
}
