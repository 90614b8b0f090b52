use gitrs::internals::head::{parse_head_content, path_to_head_format, HeadPrefix};

#[test]
fn head_prefix_text() {
    assert_eq!(HeadPrefix::Ref.to_str(), "ref");
    assert_eq!(HeadPrefix::Remote.to_str(), "rmt");
    assert_eq!(HeadPrefix::Tag.to_str(), "tag");
    for p in [HeadPrefix::Ref, HeadPrefix::Remote, HeadPrefix::Tag] {
        assert_eq!(HeadPrefix::from_str(p.to_str()), Some(p));
    }
    assert_eq!(HeadPrefix::from_str("refs"), None);
    assert_eq!(HeadPrefix::from_str(""), None);
}

#[test]
fn head_line_format() {
    assert_eq!(
        path_to_head_format("refs/heads/main", HeadPrefix::Ref),
        "ref: refs/heads/main\n"
    );
    assert_eq!(path_to_head_format("v1", HeadPrefix::Tag), "tag: v1\n");
}

#[test]
fn head_line_roundtrip() {
    for p in [HeadPrefix::Ref, HeadPrefix::Remote, HeadPrefix::Tag] {
        let line = path_to_head_format("refs/heads/main", p);
        assert_eq!(parse_head_content(&line), Some((p, "refs/heads/main".to_string())));
    }
}

#[test]
fn head_corrupt_content() {
    assert_eq!(parse_head_content(""), None);
    assert_eq!(parse_head_content("ref: a b\n"), None);
    assert_eq!(parse_head_content("xyz: a\n"), None);
    assert_eq!(parse_head_content("re a\n"), None);
    // only the first three characters of the first word count
    assert_eq!(
        parse_head_content("  refs:   path/x  "),
        Some((HeadPrefix::Ref, "path/x".to_string()))
    );
}
