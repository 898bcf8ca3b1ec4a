use bookmark_enricher::markup::{bookmark_from_anchor, parse_bookmarks_html, RawAnchor};

#[test]
fn title_fallback_from_path_segment() {
    let html = r#"<DL><p><DT><A HREF="https://site.com/my-cool-post"></A></DL><p>"#;
    let bookmarks = parse_bookmarks_html(html);
    assert_eq!(bookmarks.len(), 1);
    assert_eq!(bookmarks[0].url, "https://site.com/my-cool-post");
    assert_eq!(bookmarks[0].title, "my cool post");
    assert!(bookmarks[0].tags.is_none());
}

#[test]
fn title_fallback_without_path() {
    let html = r#"<DT><A HREF="https://site.com"></A>"#;
    let bookmarks = parse_bookmarks_html(html);
    assert_eq!(bookmarks.len(), 1);
    assert_eq!(bookmarks[0].title, "无标题");
}

#[test]
fn date_fallback_on_bad_attribute() {
    let html = r#"<DT><A HREF="https://a.com/x" ADD_DATE="abc">X</A>"#;
    let bookmarks = parse_bookmarks_html(html);
    assert_eq!(bookmarks.len(), 1);
    assert_eq!(bookmarks[0].date_added, None);
}

#[test]
fn date_absent_without_attribute() {
    let html = r#"<DT><A HREF="https://a.com/x">X</A>"#;
    let bookmarks = parse_bookmarks_html(html);
    assert_eq!(bookmarks.len(), 1);
    assert_eq!(bookmarks[0].date_added, None);
}

#[test]
fn date_parsed_when_valid() {
    let html = r#"<DT><A HREF="https://a.com/x" ADD_DATE="1700000000">X</A>"#;
    let bookmarks = parse_bookmarks_html(html);
    assert_eq!(bookmarks[0].date_added, Some(1700000000));
}

#[test]
fn date_out_of_range_substitutes_now() {
    // parseable as an integer, far outside the representable range
    let html = r#"<DT><A HREF="https://a.com/x" ADD_DATE="9000000000000000000">X</A>"#;
    let bookmarks = parse_bookmarks_html(html);
    let d = bookmarks[0].date_added.expect("current time substituted");
    assert_ne!(d, 9000000000000000000);
    assert!(d > 0);
}

#[test]
fn anchor_without_href_is_skipped() {
    let html = r#"<DT><A>no link</A><DT><A HREF="https://a.com/x">X</A>"#;
    let bookmarks = parse_bookmarks_html(html);
    assert_eq!(bookmarks.len(), 1);
    assert_eq!(bookmarks[0].url, "https://a.com/x");
}

#[test]
fn link_text_is_cleaned() {
    let html = "<DT><A HREF=\"https://a.com/x\">  Hello \t  World </A>";
    let bookmarks = parse_bookmarks_html(html);
    assert_eq!(bookmarks[0].title, "Hello World");
}

#[test]
fn anchor_conversion_directly() {
    let a = RawAnchor {
        href: Some("https://site.com/my-cool-post".to_string()),
        text: "   ".to_string(),
        add_date: Some("42".to_string()),
    };
    let b = bookmark_from_anchor(&a).expect("has href");
    assert_eq!(b.title, "my cool post");
    assert_eq!(b.date_added, Some(42));

    let no_href = RawAnchor { href: None, text: "x".to_string(), add_date: None };
    assert!(bookmark_from_anchor(&no_href).is_none());
}

#[test]
fn bookmarks_keep_document_order() {
    let html = r#"
        <DT><A HREF="https://a.com/1">one</A>
        <DT><A HREF="https://a.com/2">two</A>
        <DT><A HREF="https://a.com/3">three</A>
    "#;
    let bookmarks = parse_bookmarks_html(html);
    let urls: Vec<&str> = bookmarks.iter().map(|b| b.url.as_str()).collect();
    assert_eq!(urls, vec!["https://a.com/1", "https://a.com/2", "https://a.com/3"]);
}
