use bookmark_enricher::enrich::{build_prompt, build_request_body, escape_json, parse_ai_reply};

#[test]
fn tag_filtering_scenario() {
    let text = "标题：一个合适的测试标题\n标签：科技, 其他,编程语言设计与实现详解与应用场景分析,AI,!坏标签";
    let resp = parse_ai_reply(text).expect("title and tags present");
    assert_eq!(resp.title, "一个合适的测试标题");
    assert_eq!(resp.tags, vec!["科技".to_string(), "AI".to_string()]);
}

#[test]
fn reply_needs_title_and_tags() {
    assert!(parse_ai_reply("标签：科技,AI").is_none());
    assert!(parse_ai_reply("标题：只有标题").is_none());
    assert!(parse_ai_reply("标题：标题\n标签：其他").is_none());
    assert!(parse_ai_reply("").is_none());
    assert!(parse_ai_reply("nothing useful").is_none());
}

#[test]
fn at_most_five_tags_survive() {
    let text = "标题：标题文字\n标签：标签甲,标签乙,标签丙,标签丁,标签戊,标签己,标签庚";
    let resp = parse_ai_reply(text).expect("valid reply");
    assert_eq!(resp.tags.len(), 5);
    assert_eq!(resp.tags[0], "标签甲");
    assert_eq!(resp.tags[4], "标签戊");
}

#[test]
fn last_matching_line_wins() {
    let text = "标题：第一个标题\n标签：科技,AI\n标题：第二个标题";
    let resp = parse_ai_reply(text).expect("valid reply");
    assert_eq!(resp.title, "第二个标题");
}

#[test]
fn ideographic_delimiters_split_tags() {
    let text = "标题：标题文字\n标签：科技，人工智能、编程";
    let resp = parse_ai_reply(text).expect("valid reply");
    assert_eq!(
        resp.tags,
        vec!["科技".to_string(), "人工智能".to_string(), "编程".to_string()]
    );
}

#[test]
fn single_character_tags_are_dropped() {
    let text = "标题：标题文字\n标签：a,科技";
    let resp = parse_ai_reply(text).expect("valid reply");
    assert_eq!(resp.tags, vec!["科技".to_string()]);
}

#[test]
fn crlf_lines_are_handled() {
    let text = "标题：一个标题\r\n标签：科技,AI\r\n";
    let resp = parse_ai_reply(text).expect("valid reply");
    assert_eq!(resp.title, "一个标题");
    assert_eq!(resp.tags, vec!["科技".to_string(), "AI".to_string()]);
}

#[test]
fn escapes_json_string_characters() {
    assert_eq!(escape_json("a\"b\\c\nd"), "a\\\"b\\\\c\\nd");
    assert_eq!(escape_json("tab\there"), "tab\\there");
    assert_eq!(escape_json("\r"), "\\r");
    assert_eq!(escape_json("\u{1}"), "\\u0001");
    assert_eq!(escape_json("中文 plain"), "中文 plain");
}

#[test]
fn prompt_embeds_url() {
    let p = build_prompt("https://a.com/x");
    assert!(p.ends_with("当前网址：https://a.com/x"));
    assert!(p.starts_with("请根据以下网址内容生成标题和标签："));
}

#[test]
fn request_body_holds_escaped_prompt_and_parameters() {
    let body = build_request_body("https://a.com/x");
    assert!(body.starts_with("{\"contents\":[{\"parts\":[{\"text\":\""));
    assert!(body.ends_with(
        "\"}]}],\"generationConfig\":{\"temperature\":0.7,\"topK\":40,\"topP\":0.95,\"maxOutputTokens\":1024}}"
    ));
    // the prompt's newlines are escaped inside the JSON string
    assert!(body.contains("\\n当前网址：https://a.com/x"));
    // and the body is valid JSON holding the prompt text
    let v: serde_json::Value = serde_json::from_str(&body).expect("well-formed JSON");
    let text = v["contents"][0]["parts"][0]["text"].as_str().unwrap();
    assert_eq!(text, build_prompt("https://a.com/x"));
}
