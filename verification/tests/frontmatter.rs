use emphasize::frontmatter::{Error, FrontMatter};

#[test]
fn parses_title_date_and_body_offset() {
    let doc = b"---\ntitle: Hi\ndate: 2024-01-01\n---\nHello";
    let (fm, offset) = FrontMatter::parse(doc).expect("well-formed front matter");
    assert_eq!(fm.title, "Hi");
    assert_eq!(fm.date, "2024-01-01");
    assert!(fm.tags.is_empty());
    assert_eq!(fm.template, None);
    assert_eq!(&doc[offset..], b"Hello");
    assert_eq!(offset, 35);
}

#[test]
fn parses_tags_and_template() {
    let doc = b"---\ntitle: T\ndate: d\ntags:\n  - one\n  - two\ntemplate: page.liquid\n---\nbody";
    let (fm, _) = FrontMatter::parse(doc).expect("well-formed front matter");
    assert_eq!(fm.tags, vec!["one".to_string(), "two".to_string()]);
    assert_eq!(fm.template, Some("page.liquid".to_string()));
}

#[test]
fn leading_whitespace_is_skipped() {
    let doc = b"\n  \t---\ntitle: T\ndate: d\n---\n";
    assert!(FrontMatter::parse(doc).is_ok());
}

#[test]
fn truncated_document_is_eof() {
    assert_eq!(FrontMatter::parse(b"--"), Err(Error::Eof));
    assert_eq!(FrontMatter::parse(b"---\ntitle: T\n"), Err(Error::Eof));
    assert_eq!(FrontMatter::parse(b""), Err(Error::Eof));
}

#[test]
fn broken_marker_is_malformed() {
    assert_eq!(FrontMatter::parse(b"body only"), Err(Error::Malformed));
    assert_eq!(FrontMatter::parse(b"--x\n"), Err(Error::Malformed));
    assert_eq!(FrontMatter::parse(b"---x"), Err(Error::Malformed));
}

#[test]
fn missing_required_fields_are_a_yaml_error() {
    assert_eq!(FrontMatter::parse(b"---\ntitle: only\n---\n"), Err(Error::Yaml));
    assert_eq!(FrontMatter::parse(b"---\ntitle: 1\ndate: d\n---\n"), Err(Error::Yaml));
}

#[test]
fn wrong_shaped_optional_entries_refuse_the_document() {
    // A present `tags` must be a sequence of strings; a present `template`
    // must be a string.
    assert_eq!(FrontMatter::parse(b"---\ntitle: T\ndate: d\ntags: solo\n---\n"), Err(Error::Yaml));
    assert_eq!(
        FrontMatter::parse(b"---\ntitle: T\ndate: d\ntags:\n  - 1\n---\n"),
        Err(Error::Yaml)
    );
    assert_eq!(
        FrontMatter::parse(b"---\ntitle: T\ndate: d\ntemplate:\n  - x\n---\n"),
        Err(Error::Yaml)
    );
}

#[test]
fn dashes_inside_the_block_are_kept() {
    let doc = b"---\ntitle: a-b\ndate: d\n---\nrest";
    let (fm, _) = FrontMatter::parse(doc).expect("dashes mid-line are content");
    assert_eq!(fm.title, "a-b");
}
