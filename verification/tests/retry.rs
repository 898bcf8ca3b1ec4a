use bookmark_enricher::enrich::{retry_step, HttpEvent, RetryStep, MAX_RETRIES};

fn success_body() -> String {
    "{\"candidates\":[{\"content\":{\"parts\":[{\"text\":\"标题：测试标题\\n标签：科技,AI\"}]}}]}"
        .to_string()
}

#[test]
fn retry_exhaustion_on_failures() {
    // three consecutive non-success statuses: no result, exactly three attempts
    let mut attempts = 0usize;
    let mut result = None;
    for attempt in 0..MAX_RETRIES {
        attempts += 1;
        match retry_step(attempt, HttpEvent::HttpFailure) {
            RetryStep::Retry { wait_secs } => {
                assert_eq!(wait_secs, 5 * (attempt as u64 + 1));
            }
            RetryStep::GiveUp { wait_secs } => {
                assert_eq!(wait_secs, 0);
                break;
            }
            RetryStep::Done(r) => {
                result = Some(r);
                break;
            }
        }
    }
    assert!(result.is_none());
    assert_eq!(attempts, 3);
}

#[test]
fn quota_wait_then_success() {
    // one quota wait, then one successful response; no failure consumed
    let first = retry_step(0, HttpEvent::Quota);
    match first {
        RetryStep::Retry { wait_secs } => assert_eq!(wait_secs, 5),
        _ => panic!("quota on a non-final attempt retries"),
    }
    let second = retry_step(1, HttpEvent::Reply(success_body()));
    match second {
        RetryStep::Done(resp) => {
            assert_eq!(resp.title, "测试标题");
            assert_eq!(resp.tags, vec!["科技".to_string(), "AI".to_string()]);
        }
        _ => panic!("a parseable reply succeeds immediately"),
    }
}

#[test]
fn quota_on_final_attempt_gives_up_after_wait() {
    match retry_step(MAX_RETRIES - 1, HttpEvent::Quota) {
        RetryStep::GiveUp { wait_secs } => assert_eq!(wait_secs, 5),
        _ => panic!("the attempt budget is spent"),
    }
}

#[test]
fn transport_failure_backs_off_plus_pacing() {
    match retry_step(0, HttpEvent::TransportFailure) {
        RetryStep::Retry { wait_secs } => assert_eq!(wait_secs, 5 + 3),
        _ => panic!("transport failure on a non-final attempt retries"),
    }
    match retry_step(1, HttpEvent::TransportFailure) {
        RetryStep::Retry { wait_secs } => assert_eq!(wait_secs, 10 + 3),
        _ => panic!("transport failure on a non-final attempt retries"),
    }
    match retry_step(MAX_RETRIES - 1, HttpEvent::TransportFailure) {
        RetryStep::GiveUp { wait_secs } => assert_eq!(wait_secs, 3),
        _ => panic!("the attempt budget is spent"),
    }
}

#[test]
fn malformed_reply_consumes_attempt_with_pacing() {
    match retry_step(0, HttpEvent::Reply("not json".to_string())) {
        RetryStep::Retry { wait_secs } => assert_eq!(wait_secs, 3),
        _ => panic!("an unreadable reply retries after the pacing delay"),
    }
    let empty = "{\"candidates\":[]}".to_string();
    match retry_step(MAX_RETRIES - 1, HttpEvent::Reply(empty)) {
        RetryStep::GiveUp { wait_secs } => assert_eq!(wait_secs, 3),
        _ => panic!("the attempt budget is spent"),
    }
}
