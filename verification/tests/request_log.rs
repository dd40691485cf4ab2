use hamm0r::deps::{AdapterType, AuthConfig, BodyFormat, Request};
use hamm0r::error::RunnerError;
use hamm0r::extract::ExtractConfig;
use hamm0r::json::{to_json_text, JsonValue};
use hamm0r::request_log::{
    estimate_request_body_size, render_body_text, render_request_for_log, render_request_preview,
};
use hamm0r::session::SessionStrategy;

fn request(adapter: AdapterType, format: BodyFormat, body: JsonValue) -> Request {
    Request {
        id: "req".into(),
        url: "https://example.test".into(),
        headers: vec![("Content-Type".into(), "application/json".into())],
        auth: AuthConfig::Bearer { token_env: "TOKEN".into() },
        adapter,
        body_format: format,
        body,
        extract: ExtractConfig::Raw,
        bind: None,
    }
}

fn message_body() -> JsonValue {
    JsonValue::Object(vec![("message".into(), JsonValue::Str("{{prompt}}".into()))])
}

fn header<'a>(headers: &'a [(String, String)], name: &str) -> Option<&'a String> {
    headers.iter().find(|(k, _)| k == name).map(|(_, v)| v)
}

#[test]
fn render_request_preview_masks_bearer_and_substitutes_prompt() {
    let req = request(AdapterType::CustomRest, BodyFormat::Json, message_body());
    let preview = render_request_preview(&req, &SessionStrategy::Stateless, "test", "hello", &Vec::new())
        .expect("preview should render");
    assert_eq!(header(&preview.headers, "Authorization"), Some(&"Bearer <redacted>".to_owned()));
    assert!(preview.body.contains("\"hello\""));
}

#[test]
fn json_body_is_pretty_printed_with_the_session_field() {
    let req = request(AdapterType::CustomRest, BodyFormat::Json, message_body());
    let strategy = SessionStrategy::BodyField { field_name: "session_id".into() };
    let body = render_body_text(&req, "hi", &strategy, "s1", &Vec::new()).unwrap();
    assert_eq!(body, "{\n  \"message\": \"hi\",\n  \"session_id\": \"s1\"\n}");
}

#[test]
fn payload_that_breaks_the_json_is_an_extraction_error() {
    let req = request(AdapterType::CustomRest, BodyFormat::Json, message_body());
    match render_body_text(&req, "say \"hi\"", &SessionStrategy::Stateless, "s", &Vec::new()) {
        Err(RunnerError::Extraction { .. }) => {}
        other => panic!("unexpected {other:?}"),
    }
}

#[test]
fn openai_body_gets_a_user_turn_when_it_has_no_messages() {
    let req = request(
        AdapterType::OpenAiCompat,
        BodyFormat::Json,
        JsonValue::Object(vec![("model".into(), JsonValue::Str("gpt".into()))]),
    );
    let body = render_body_text(&req, "hello", &SessionStrategy::Stateless, "s", &Vec::new()).unwrap();
    let expected = "{\n  \"messages\": [\n    {\n      \"content\": \"hello\",\n      \"role\": \"user\"\n    }\n  ],\n  \"model\": \"gpt\"\n}";
    assert_eq!(body, expected);
}

#[test]
fn openai_messages_are_rendered() {
    let messages = JsonValue::Array(vec![JsonValue::Object(vec![
        ("content".into(), JsonValue::Str("{{ prompt }}".into())),
        ("role".into(), JsonValue::Str("user".into())),
    ])]);
    let req = request(AdapterType::OpenAiCompat, BodyFormat::Json, JsonValue::Object(vec![("messages".into(), messages)]));
    let body = render_body_text(&req, "x", &SessionStrategy::Stateless, "s", &Vec::new()).unwrap();
    assert!(body.contains("\"content\": \"x\""));
}

#[test]
fn raw_and_text_bodies_render_their_string() {
    let raw = request(AdapterType::RawHttp, BodyFormat::Raw, JsonValue::Str("q={{ prompt }}\n".into()));
    assert_eq!(render_body_text(&raw, "a b", &SessionStrategy::Stateless, "s", &Vec::new()).unwrap(), "q=a b\n");
    let text = request(AdapterType::CustomRest, BodyFormat::Text, JsonValue::Number("5".into()));
    assert_eq!(render_body_text(&text, "p", &SessionStrategy::Stateless, "s", &Vec::new()).unwrap(), "");
    let form = request(AdapterType::CustomRest, BodyFormat::Form, message_body());
    assert_eq!(
        render_body_text(&form, "p", &SessionStrategy::Stateless, "s", &Vec::new()).unwrap(),
        "{\"message\":\"p\"}"
    );
}

#[test]
fn log_payload_sizes_and_optionally_keeps_the_body() {
    let req = request(AdapterType::CustomRest, BodyFormat::Form, message_body());
    let strategy = SessionStrategy::Header { header_name: "X-Session".into() };
    let on = render_request_for_log(&req, "é", &strategy, "s9", true, &Vec::new()).unwrap();
    assert_eq!(on.body_text.as_deref(), Some("{\"message\":\"é\"}"));
    assert_eq!(on.body_size, 16);
    assert_eq!(header(&on.headers, "X-Session"), Some(&"s9".to_owned()));
    let off = render_request_for_log(&req, "é", &strategy, "s9", false, &Vec::new()).unwrap();
    assert_eq!(off.body_text, None);
    assert_eq!(off.body_size, 16);
}

#[test]
fn estimate_falls_back_to_the_unrendered_text() {
    let ok = request(AdapterType::CustomRest, BodyFormat::Json, message_body());
    assert_eq!(estimate_request_body_size(&ok, "abc", &Vec::new()), "{\"message\":\"abc\"}".len() as u64);
    let broken = request(AdapterType::CustomRest, BodyFormat::Text, JsonValue::Str("{{ oops".into()));
    assert_eq!(estimate_request_body_size(&broken, "abc", &Vec::new()), 7);
}

#[test]
fn compact_json_text_escapes_strings() {
    let v = JsonValue::Object(vec![
        ("a\"b".into(), JsonValue::Array(vec![JsonValue::Null, JsonValue::Bool(false), JsonValue::Number("1.5".into())])),
        ("t".into(), JsonValue::Str("line\nnext\u{1}".into())),
    ]);
    assert_eq!(to_json_text(&v), "{\"a\\\"b\":[null,false,1.5],\"t\":\"line\\nnext\\u0001\"}");
}
