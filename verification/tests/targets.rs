use hamm0r::deps::{AdapterType, AuthConfig, BodyFormat, Request};
use hamm0r::extract::ExtractConfig;
use hamm0r::json::JsonValue;
use hamm0r::session::SessionStrategy;
use hamm0r::targets::{default_auth_source, target_fields};

fn request(auth: AuthConfig, body: JsonValue, extract: ExtractConfig) -> Request {
    Request {
        id: "r".into(),
        url: "https://x.test".into(),
        headers: Vec::new(),
        auth,
        adapter: AdapterType::OpenAiCompat,
        body_format: BodyFormat::Json,
        body,
        extract,
        bind: None,
    }
}

#[test]
fn target_fields_label_the_request() {
    let body = JsonValue::Object(vec![
        ("messages".into(), JsonValue::Array(Vec::new())),
        ("model".into(), JsonValue::Str("m".into())),
    ]);
    let req = request(
        AuthConfig::CustomHeader { header_name: "X-Key".into(), value_env: "KEY".into() },
        body,
        ExtractConfig::Jsonpath { path: "$.choices[0].message.content".into() },
    );
    let f = target_fields(&req, &SessionStrategy::Header { header_name: "X-Session".into() });
    assert_eq!(f.endpoint_type, "openai_compat");
    assert_eq!(f.auth_type, "api_key");
    assert_eq!(f.auth_env.as_deref(), Some("KEY"));
    assert_eq!(f.auth_header.as_deref(), Some("X-Key"));
    assert_eq!(f.session_strategy, "header");
    assert_eq!(f.session_field.as_deref(), Some("X-Session"));
    assert_eq!(f.request_field.as_deref(), Some("model"));
    assert_eq!(f.response_field.as_deref(), Some("choices[0].message.content"));
}

#[test]
fn target_fields_without_fields() {
    let req = request(AuthConfig::NoAuth, JsonValue::Str("raw".into()), ExtractConfig::Regex { pattern: "x".into() });
    let f = target_fields(&req, &SessionStrategy::Stateless);
    assert_eq!(f.auth_type, "none");
    assert_eq!(f.session_strategy, "none");
    assert_eq!(f.request_field, None);
    assert_eq!(f.response_field, None);
    assert_eq!(default_auth_source(), "manual");
}
