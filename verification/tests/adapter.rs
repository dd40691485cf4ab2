use hamm0r::adapter::{apply_auth, apply_session_header, inject_session_body_field, set_header, AuthAction};
use hamm0r::deps::AuthConfig;
use hamm0r::error::RunnerError;
use hamm0r::json::JsonValue;
use hamm0r::session::SessionStrategy;

fn env(pairs: &[(&str, &str)]) -> Vec<(String, String)> {
    pairs.iter().map(|(k, v)| ((*k).to_owned(), (*v).to_owned())).collect()
}

#[test]
fn bearer_token_comes_from_its_variable() {
    let auth = AuthConfig::Bearer { token_env: "TOKEN".into() };
    match apply_auth(&auth, &env(&[("OTHER", "x"), ("TOKEN", "t0k")])) {
        Ok(AuthAction::Bearer { token }) => assert_eq!(token, "t0k"),
        other => panic!("unexpected {other:?}"),
    }
}

#[test]
fn missing_variable_is_named() {
    let auth = AuthConfig::Basic { user_env: "U".into(), password_env: "P".into() };
    match apply_auth(&auth, &env(&[("U", "alice")])) {
        Err(RunnerError::MissingEnvVar { var }) => assert_eq!(var, "P"),
        other => panic!("unexpected {other:?}"),
    }
    match apply_auth(&auth, &env(&[])) {
        Err(RunnerError::MissingEnvVar { var }) => assert_eq!(var, "U"),
        other => panic!("unexpected {other:?}"),
    }
}

#[test]
fn custom_header_and_no_auth() {
    let auth = AuthConfig::CustomHeader { header_name: "X-Api-Key".into(), value_env: "KEY".into() };
    match apply_auth(&auth, &env(&[("KEY", "k")])) {
        Ok(AuthAction::Header { name, value }) => {
            assert_eq!(name, "X-Api-Key");
            assert_eq!(value, "k");
        },
        other => panic!("unexpected {other:?}"),
    }
    assert!(matches!(apply_auth(&AuthConfig::NoAuth, &env(&[])), Ok(AuthAction::NoAuth)));
}

#[test]
fn session_header_replaces_or_adds() {
    let mut headers = env(&[("Accept", "*/*"), ("X-Session-Id", "old")]);
    apply_session_header(&mut headers, &SessionStrategy::Header { header_name: "X-Session-Id".into() }, "s1");
    assert_eq!(headers, env(&[("Accept", "*/*"), ("X-Session-Id", "s1")]));
    apply_session_header(&mut headers, &SessionStrategy::Cookie, "s2");
    assert_eq!(headers, env(&[("Accept", "*/*"), ("X-Session-Id", "s1")]));
    set_header(&mut headers, "x-session-id", "s3");
    assert_eq!(headers.len(), 3);
}

#[test]
fn body_field_goes_into_json_objects_only() {
    let body = JsonValue::Object(vec![("message".into(), JsonValue::Str("hi".into()))]);
    let strategy = SessionStrategy::BodyField { field_name: "session_id".into() };
    let out = inject_session_body_field(body, &strategy, "s0");
    assert_eq!(
        out,
        JsonValue::Object(vec![
            ("message".into(), JsonValue::Str("hi".into())),
            ("session_id".into(), JsonValue::Str("s0".into())),
        ])
    );
    let text = JsonValue::Str("raw".into());
    assert_eq!(inject_session_body_field(text, &strategy, "s0"), JsonValue::Str("raw".into()));
    let body = JsonValue::Object(vec![("session_id".into(), JsonValue::Null)]);
    assert_eq!(
        inject_session_body_field(body, &strategy, "s9"),
        JsonValue::Object(vec![("session_id".into(), JsonValue::Str("s9".into()))])
    );
}
