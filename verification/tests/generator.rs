use bookmark_enricher::generate::generate_bookmarks_html;
use bookmark_enricher::markup::parse_bookmarks_html;
use bookmark_enricher::model::Bookmark;

fn preamble() -> String {
    "<!DOCTYPE NETSCAPE-Bookmark-file-1>\n\
     <META HTTP-EQUIV=\"Content-Type\" CONTENT=\"text/html; charset=UTF-8\">\n\
     <META NAME=\"viewport\" content=\"width=device-width, initial-scale=1\">\n\
     <TITLE>Bookmarks</TITLE>\n\
     <H1>Bookmarks</H1>\n\
     <DL><p>\n"
        .to_string()
}

#[test]
fn exact_output_for_one_bookmark() {
    let bookmarks = vec![Bookmark {
        url: "https://a.com/x".to_string(),
        title: "My Title".to_string(),
        tags: Some(vec!["科技".to_string(), "AI".to_string()]),
        date_added: Some(1700000000),
    }];
    let html = generate_bookmarks_html(&bookmarks);
    let expected = preamble()
        + "    <DT><A HREF=\"https://a.com/x\" ADD_DATE=\"1700000000\" TAGS=\"科技, AI\" \
           TITLE=\"My Title\" SEARCH_TERMS=\"My Title, 科技, AI\">My Title</A>\n"
        + "</DL><p>";
    assert_eq!(html, expected);
}

#[test]
fn absent_date_and_tags_render_empty() {
    let bookmarks = vec![Bookmark {
        url: "https://a.com/x".to_string(),
        title: "T0".to_string(),
        tags: None,
        date_added: None,
    }];
    let html = generate_bookmarks_html(&bookmarks);
    let expected = preamble()
        + "    <DT><A HREF=\"https://a.com/x\" ADD_DATE=\"\" TAGS=\"\" TITLE=\"T0\" \
           SEARCH_TERMS=\"T0, \">T0</A>\n"
        + "</DL><p>";
    assert_eq!(html, expected);
}

#[test]
fn generate_then_parse_round_trip() {
    let bookmarks = vec![
        Bookmark {
            url: "https://a.com/one".to_string(),
            title: "First Entry".to_string(),
            tags: Some(vec!["科技".to_string(), "AI".to_string()]),
            date_added: Some(1700000000),
        },
        Bookmark {
            url: "https://b.com/two".to_string(),
            title: "第二个条目".to_string(),
            tags: None,
            date_added: None,
        },
        Bookmark {
            url: "https://c.com/three".to_string(),
            title: "Third".to_string(),
            tags: Some(vec!["编程".to_string()]),
            date_added: Some(-1),
        },
    ];
    let html = generate_bookmarks_html(&bookmarks);
    let reparsed = parse_bookmarks_html(&html);
    assert_eq!(reparsed.len(), bookmarks.len());
    for (orig, back) in bookmarks.iter().zip(reparsed.iter()) {
        assert_eq!(back.url, orig.url);
        assert_eq!(back.title, orig.title);
        // tags are never read back by the parser
        assert!(back.tags.is_none());
    }
}
