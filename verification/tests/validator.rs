use bookmark_enricher::weburl::{title_from_url, validate_url};

#[test]
fn accepts_http_and_https_with_host() {
    assert!(validate_url("https://example.com/path"));
    assert!(validate_url("http://example.com"));
    // the parser lower-cases the scheme
    assert!(validate_url("HTTPS://EXAMPLE.COM"));
}

#[test]
fn rejects_wrong_scheme() {
    assert!(!validate_url("ftp://example.com"));
}

#[test]
fn rejects_unparsable() {
    assert!(!validate_url("not a url"));
}

#[test]
fn rejects_empty_host() {
    assert!(!validate_url("http://"));
}

#[test]
fn derives_title_from_last_path_segment() {
    assert_eq!(
        title_from_url("https://site.com/my-cool-post").as_deref(),
        Some("my cool post")
    );
    // a trailing slash leaves the last non-empty segment in charge
    assert_eq!(
        title_from_url("https://site.com/a/b-c/").as_deref(),
        Some("b c")
    );
    assert_eq!(title_from_url("https://site.com"), None);
    assert_eq!(title_from_url("not a url"), None);
}
