use sitegen::content::{ContentStatus, LoadError, Timestamp};
use sitegen::loader::{parse_content, slug_of, classify, FileClass, asset_output_path, parse_tags};

#[test]
fn missing_blank_line_is_parse_error() {
    let text = "title: A\ndate: 2024-01-01\nbody without separator";
    let err = parse_content(text).unwrap_err();
    assert!(matches!(err, LoadError::MissingSeparator));
}

#[test]
fn bad_delimiter_is_parse_error() {
    let text = "title: A\ndate-2024-01-01\n\nbody";
    let err = parse_content(text).unwrap_err();
    assert!(matches!(err, LoadError::BadDelimiter));
}

#[test]
fn missing_title_fails() {
    let text = "date: 2024-01-01\n\nbody";
    assert!(matches!(parse_content(text).unwrap_err(), LoadError::MissingTitle));
}

#[test]
fn missing_date_fails() {
    let text = "title: A\n\nbody";
    assert!(matches!(parse_content(text).unwrap_err(), LoadError::MissingDate));
}

#[test]
fn invalid_date_fails() {
    let text = "title: A\ndate: 2024-13-01\n\nbody";
    assert!(matches!(parse_content(text).unwrap_err(), LoadError::BadDate));
}

#[test]
fn invalid_status_fails() {
    let text = "title: A\ndate: 2024-01-01\nstatus: published\n\nbody";
    assert!(matches!(parse_content(text).unwrap_err(), LoadError::BadStatus));
}

#[test]
fn full_item_parses() {
    let text = "Title: Hello, World!\ndate: 2024-03-05 10:30\nstatus: PUBLIC\nlayout: post\ntags: a, b ,, c\n\nbody text";
    let item = parse_content(text).unwrap();
    assert!(matches!(item.status, ContentStatus::Public));
    assert_eq!(item.markdown, "body text");
    assert_eq!(
        item.timestamp,
        Timestamp { year: 2024, month: 3, day: 5, hour: 10, minute: 30 },
    );
    assert_eq!(item.tags, vec!["a".to_string(), "b".to_string(), "c".to_string()]);
    assert_eq!(item.output_path, "blog/2024/03/05/hello-world");
    assert_eq!(item.metadata.get("title").unwrap(), "Hello, World!");
}

#[test]
fn date_without_time_defaults_to_midnight() {
    let text = "title: A\ndate: 2024-01-02\n\nbody";
    let item = parse_content(text).unwrap();
    assert_eq!(
        item.timestamp,
        Timestamp { year: 2024, month: 1, day: 2, hour: 0, minute: 0 },
    );
}

#[test]
fn save_as_overrides_slug_path() {
    let text = "title: A\ndate: 2024-01-02\nsave_as: about/index\n\nbody";
    let item = parse_content(text).unwrap();
    assert_eq!(item.output_path, "about/index");
}

#[test]
fn page_layout_uses_bare_slug() {
    let text = "title: My Page\ndate: 2024-01-02\nlayout: page\n\nbody";
    let item = parse_content(text).unwrap();
    assert_eq!(item.output_path, "my-page");
}

#[test]
fn duplicate_keys_last_wins() {
    let text = "title: First\ntitle: Second\ndate: 2024-01-02\n\nbody";
    let item = parse_content(text).unwrap();
    assert_eq!(item.metadata.get("title").unwrap(), "Second");
}

#[test]
fn slug_hello_world() {
    assert_eq!(slug_of("Hello, World!"), "hello-world");
}

#[test]
fn slug_already_slugged() {
    assert_eq!(slug_of("  Already--slugged  "), "--alreadyslugged--");
}

#[test]
fn classify_by_extension() {
    assert!(matches!(classify("post.md"), FileClass::Markdown));
    assert!(matches!(classify("post.markdown"), FileClass::Markdown));
    assert!(matches!(classify("tool.py"), FileClass::Ignored));
    assert!(matches!(classify(".DS_Store"), FileClass::Ignored));
    assert!(matches!(classify("README"), FileClass::Ignored));
    assert!(matches!(classify("style.css"), FileClass::StaticAsset));
}

#[test]
fn extra_assets_are_flattened() {
    assert_eq!(asset_output_path("extra", "favicon.ico"), "favicon.ico");
    assert_eq!(asset_output_path("images", "me.webp"), "images/me.webp");
    assert_eq!(asset_output_path("", "root.txt"), "root.txt");
}

#[test]
fn tags_are_trimmed_and_empties_dropped() {
    assert_eq!(parse_tags(" a , ,b,"), vec!["a".to_string(), "b".to_string()]);
    assert_eq!(parse_tags(""), Vec::<String>::new());
}

#[test]
fn status_is_case_insensitive() {
    let text = "title: A\ndate: 2024-01-01\nstatus: DrAfT\n\nbody";
    let item = parse_content(text).unwrap();
    assert!(matches!(item.status, ContentStatus::Draft));
}
