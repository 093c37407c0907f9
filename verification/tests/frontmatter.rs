use farol::error::FarolError;
use farol::frontmatter::{parse_toml_table, split_at_delim, split_block, FrontmatterBlock};
use farol::pipeline::{page_layout, title_guess};

#[test]
fn no_frontmatter() {
    let (block, body) = split_block("# hi\n", "p.md").unwrap();
    assert!(matches!(block, FrontmatterBlock::Absent));
    assert_eq!(body, "# hi\n");
}

#[test]
fn yaml_block() {
    let input = "---\ntitle: Hello\nweight: 10\n---\n# body\n";
    let (block, body) = split_block(input, "p.md").unwrap();
    match block {
        FrontmatterBlock::Yaml(raw) => assert_eq!(raw, "title: Hello\nweight: 10"),
        _ => panic!("expected a YAML block"),
    }
    assert_eq!(body, "# body\n");
}

#[test]
fn toml_block() {
    let input = "+++\ntitle = \"Hello\"\nweight = 3\n+++\n# body\n";
    let (block, body) = split_block(input, "p.md").unwrap();
    let raw = match block {
        FrontmatterBlock::Toml(raw) => raw,
        _ => panic!("expected a TOML block"),
    };
    let fm = parse_toml_table(&raw, "p.md").unwrap();
    assert_eq!(fm.get("title").and_then(|v| v.as_str()), Some("Hello"));
    assert_eq!(fm.get("weight").and_then(|v| v.as_integer()), Some(3));
    assert_eq!(title_guess(&fm, "guide/p.md"), "Hello");
    assert_eq!(page_layout(&fm), "default");
    assert_eq!(body, "# body\n");
}

#[test]
fn unterminated_frontmatter_errors() {
    let input = "---\ntitle: No closer\n";
    match split_block(input, "p.md") {
        Err(FarolError::Frontmatter { path, message }) => {
            assert_eq!(path, "p.md");
            assert_eq!(message, "unterminated YAML frontmatter");
        }
        _ => panic!("expected an error"),
    }
}

#[test]
fn closing_delimiter_at_end_of_file() {
    let (raw, body) = split_at_delim("a = 1\n+++", "\n+++\n", "\n+++", "p", "TOML frontmatter").unwrap();
    assert_eq!(raw, "a = 1");
    assert_eq!(body, "");
}

#[test]
fn bad_toml_is_a_frontmatter_error() {
    match parse_toml_table("title = ", "x.md") {
        Err(FarolError::Frontmatter { path, .. }) => assert_eq!(path, "x.md"),
        _ => panic!("expected an error"),
    }
}
