use bookmark_enricher::text::clean_title;

#[test]
fn collapses_and_trims_whitespace() {
    assert_eq!(clean_title("  hello   world  "), "hello world");
    assert_eq!(clean_title("a\tb\nc"), "a b c");
    assert_eq!(clean_title(""), "");
    assert_eq!(clean_title("   \t  "), "");
}

#[test]
fn applies_nfkc_normalization() {
    // fullwidth letters and the ideographic space compose to plain ASCII
    assert_eq!(clean_title("ＡＢＣ　ｄｅｆ"), "ABC def");
    // the fi ligature decomposes under compatibility normalization
    assert_eq!(clean_title("ﬁle"), "file");
}

#[test]
fn normalization_is_idempotent_on_samples() {
    let samples = [
        "  hello   world  ",
        "ＡＢＣ　ｄｅｆ",
        "ﬁle  one",
        "中文 标题  测试",
        "",
        "plain",
        "a\u{00A0}b",
    ];
    for s in samples {
        let once = clean_title(s);
        let twice = clean_title(&once);
        assert_eq!(twice, once, "not idempotent on {:?}", s);
    }
}
