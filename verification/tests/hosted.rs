use hamm0r::hosted::build_azure_chat_completions_body;
use hamm0r::json::JsonValue;

fn member<'a>(v: &'a JsonValue, key: &str) -> Option<&'a JsonValue> {
    match v {
        JsonValue::Object(ms) => ms.iter().find(|(k, _)| k == key).map(|(_, v)| v),
        _ => None,
    }
}

#[test]
fn azure_chat_completions_body_uses_max_completion_tokens() {
    let body = build_azure_chat_completions_body("hello", 321);

    assert_eq!(member(&body, "max_completion_tokens"), Some(&JsonValue::Number("321".to_owned())));
    assert!(member(&body, "max_tokens").is_none());
    assert!(member(&body, "temperature").is_none());
    let content = match member(&body, "messages") {
        Some(JsonValue::Array(items)) => member(&items[0], "content").and_then(|c| c.as_str()),
        _ => None,
    };
    assert_eq!(content, Some("hello"));
}

use hamm0r::hosted::{auto_mode_error, hosted_attempts, hosted_step, HostedJudgeApiStyle, HostedReply, HostedStep};

fn outcome(step: HostedStep) -> Option<Result<String, String>> {
    match step {
        HostedStep::Retry => None,
        HostedStep::Finish { outcome } => Some(outcome),
    }
}

#[test]
fn network_failures_are_retried_until_the_last_attempt() {
    let attempts = hosted_attempts(0);
    assert_eq!(attempts, 1);
    let net = || HostedReply::Network { message: "timed out".into() };
    assert!(outcome(hosted_step(HostedJudgeApiStyle::ChatCompletions, 0, 3, net())).is_none());
    assert_eq!(
        outcome(hosted_step(HostedJudgeApiStyle::ChatCompletions, 2, 3, net())),
        Some(Err("Hosted Judge request failed: timed out".to_owned()))
    );
    assert_eq!(
        outcome(hosted_step(HostedJudgeApiStyle::Responses, 0, 1, net())),
        Some(Err("Hosted Judge responses request failed: timed out".to_owned()))
    );
}

#[test]
fn answers_end_the_call() {
    let failed = HostedReply::Answer {
        success: false,
        status: "429 Too Many Requests".into(),
        body: "  slow down \n".into(),
        content: Err("unused".into()),
    };
    assert_eq!(
        outcome(hosted_step(HostedJudgeApiStyle::ChatCompletions, 0, 3, failed)),
        Some(Err("Hosted Judge request failed with HTTP 429 Too Many Requests: slow down".to_owned()))
    );
    let ok = HostedReply::Answer { success: true, status: "200 OK".into(), body: String::new(), content: Ok("{}".into()) };
    assert_eq!(outcome(hosted_step(HostedJudgeApiStyle::Responses, 0, 3, ok)), Some(Ok("{}".to_owned())));
    let bad = HostedReply::Answer { success: true, status: "200 OK".into(), body: String::new(), content: Err("eof".into()) };
    assert_eq!(
        outcome(hosted_step(HostedJudgeApiStyle::Responses, 0, 3, bad)),
        Some(Err("Hosted Judge responses decode failed: eof".to_owned()))
    );
}

#[test]
fn auto_mode_reports_both_failures() {
    assert_eq!(
        auto_mode_error("a", "b"),
        "Hosted Judge auto mode failed for both chat_completions and responses. chat_completions: a; responses: b"
    );
}
