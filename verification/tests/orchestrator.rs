use bookmark_enricher::generate::generate_bookmarks_html;
use bookmark_enricher::markup::parse_bookmarks_html;
use bookmark_enricher::model::{AiResponse, Bookmark, Stats};
use bookmark_enricher::orchestrate::{apply_enrichment, checkpoint_due, process_with_outcomes};

fn plain_bookmark(i: usize) -> Bookmark {
    Bookmark {
        url: format!("https://a.com/{}", i),
        title: format!("t{}", i),
        tags: None,
        date_added: None,
    }
}

fn stub_response() -> AiResponse {
    AiResponse {
        title: "新标题".to_string(),
        tags: vec!["科技".to_string(), "AI".to_string()],
    }
}

#[test]
fn checkpoint_only_at_positive_batch_multiples() {
    assert!(!checkpoint_due(0));
    assert!(!checkpoint_due(1));
    assert!(!checkpoint_due(9));
    assert!(checkpoint_due(10));
    assert!(!checkpoint_due(15));
    assert!(checkpoint_due(20));
    assert!(!checkpoint_due(21));
}

#[test]
fn twenty_one_bookmarks_trigger_two_checkpoints() {
    let bookmarks: Vec<Bookmark> = (0..21).map(plain_bookmark).collect();
    let outcomes: Vec<Option<AiResponse>> = (0..21).map(|_| Some(stub_response())).collect();
    let (result, stats, checkpoints) = process_with_outcomes(bookmarks, outcomes);
    assert_eq!(checkpoints, vec![10, 20]);
    assert_eq!(stats, Stats { total: 21, updated: 21, failed: 0 });
    assert_eq!(result.len(), 21);
}

#[test]
fn no_checkpoint_for_a_short_run() {
    let bookmarks: Vec<Bookmark> = (0..10).map(plain_bookmark).collect();
    let outcomes: Vec<Option<AiResponse>> = (0..10).map(|_| None).collect();
    let (_, stats, checkpoints) = process_with_outcomes(bookmarks, outcomes);
    assert!(checkpoints.is_empty());
    assert_eq!(stats, Stats { total: 10, updated: 0, failed: 10 });
}

#[test]
fn enrichment_replaces_title_and_tags_together() {
    let mut b = plain_bookmark(1);
    apply_enrichment(&mut b, stub_response());
    assert_eq!(b.title, "新标题");
    assert_eq!(b.tags, Some(vec!["科技".to_string(), "AI".to_string()]));
    assert_eq!(b.url, "https://a.com/1");
    assert_eq!(b.date_added, None);
}

#[test]
fn invalid_urls_fail_without_enrichment() {
    let bookmarks = vec![
        plain_bookmark(0),
        Bookmark {
            url: "ftp://example.com".to_string(),
            title: "keep me".to_string(),
            tags: None,
            date_added: None,
        },
    ];
    let outcomes = vec![Some(stub_response()), Some(stub_response())];
    let (result, stats, _) = process_with_outcomes(bookmarks, outcomes);
    assert_eq!(stats, Stats { total: 2, updated: 1, failed: 1 });
    assert_eq!(result[0].title, "新标题");
    assert_eq!(result[1].title, "keep me");
    assert!(result[1].tags.is_none());
}

#[test]
fn end_to_end_scenario() {
    let html = r#"
        <DT><A HREF="https://example.com/a">Alpha</A>
        <DT><A HREF="ftp://example.com">Beta</A>
        <DT><A HREF="https://site.com/my-cool-post"></A>
    "#;
    let bookmarks = parse_bookmarks_html(html);
    assert_eq!(bookmarks.len(), 3);
    assert_eq!(bookmarks[2].title, "my cool post");

    // the enrichment client stubbed to always succeed for valid URLs
    let outcomes: Vec<Option<AiResponse>> =
        bookmarks.iter().map(|_| Some(stub_response())).collect();
    let (result, stats, _) = process_with_outcomes(bookmarks, outcomes);
    assert_eq!(stats, Stats { total: 3, updated: 2, failed: 1 });

    let html_out = generate_bookmarks_html(&result);
    let reparsed = parse_bookmarks_html(&html_out);
    assert_eq!(reparsed.len(), 3);
    // the invalid-URL entry's title is unchanged from its source value
    assert_eq!(reparsed[1].title, "Beta");
    assert_eq!(reparsed[0].title, "新标题");
    assert_eq!(reparsed[2].title, "新标题");
}
