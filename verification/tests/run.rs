use hamm0r::extract::ExtractConfig;
use hamm0r::deps::{AdapterType, AuthConfig, BodyFormat, Request};
use hamm0r::json::JsonValue;
use hamm0r::redact::{redact_known_secret_headers, request_headers_for_log, upsert_masked_header};
use hamm0r::run::{days_to_ymd, is_leap, iso_from_unix_secs, limit_body_for_log, render_response_body_for_log};

fn sample_request() -> Request {
    Request {
        id: "req-1".to_owned(),
        url: "https://example.test".to_owned(),
        headers: Vec::new(),
        auth: AuthConfig::NoAuth,
        adapter: AdapterType::CustomRest,
        body_format: BodyFormat::Json,
        body: JsonValue::Object(vec![("prompt".to_owned(), JsonValue::Str("{{prompt}}".to_owned()))]),
        extract: ExtractConfig::Raw,
        bind: None,
    }
}

fn get<'a>(headers: &'a [(String, String)], name: &str) -> Option<&'a String> {
    headers.iter().find(|(k, _)| k == name).map(|(_, v)| v)
}

#[test]
fn request_headers_mask_known_secret_headers_case_insensitively() {
    let mut request = sample_request();
    request
        .headers
        .push(("Authorization".to_owned(), "Bearer secret".to_owned()));
    request
        .headers
        .push(("x-api-key".to_owned(), "super-secret".to_owned()));
    request
        .headers
        .push(("Content-Type".to_owned(), "application/json".to_owned()));

    let masked = request_headers_for_log(&request);

    assert_eq!(get(&masked, "Authorization"), Some(&"<redacted>".to_owned()));
    assert_eq!(get(&masked, "x-api-key"), Some(&"<redacted>".to_owned()));
    assert_eq!(
        get(&masked, "Content-Type"),
        Some(&"application/json".to_owned())
    );
}

#[test]
fn request_headers_mask_custom_auth_header() {
    let mut request = sample_request();
    request.auth = AuthConfig::CustomHeader {
        header_name: "X-Custom-Key".to_owned(),
        value_env: "CUSTOM_KEY".to_owned(),
    };
    request
        .headers
        .push(("X-Custom-Key".to_owned(), "secret-value".to_owned()));

    let masked = request_headers_for_log(&request);

    assert_eq!(get(&masked, "X-Custom-Key"), Some(&"<redacted>".to_owned()));
}

#[test]
fn limit_body_for_log_keeps_small_payloads() {
    let logged = limit_body_for_log(b"hello".to_vec());
    assert_eq!(logged, "hello");
}

#[test]
fn limit_body_for_log_replaces_large_payloads() {
    let body = vec![b'a'; 500 * 1024 + 1];
    let logged = limit_body_for_log(body);

    assert!(logged.starts_with("Won't log the payload since the size is "));
    assert!(logged.ends_with(" KB"));
}

// ── Beyond the original suite ───────────────────────────────────────────────

#[test]
fn large_body_size_is_rounded_like_float_formatting() {
    for len in [512001usize, 512256, 512768, 524288 + 51, 1048576, 1048576 + 52, 1048576 + 154, 600000] {
        let logged = limit_body_for_log(vec![b'a'; len]);
        let expected = format!(
            "Won't log the payload since the size is {:.1} KB",
            len as f64 / 1024.0
        );
        assert_eq!(logged, expected);
    }
}

#[test]
fn small_invalid_utf8_is_replaced() {
    assert_eq!(limit_body_for_log(vec![b'a', 0xff, b'b']), "a\u{fffd}b");
}

#[test]
fn response_body_logging_can_be_disabled() {
    let body = b"hi".to_vec();
    assert_eq!(render_response_body_for_log(Some(&body), false), None);
    assert_eq!(render_response_body_for_log(Some(&body), true).as_deref(), Some("hi"));
    assert_eq!(render_response_body_for_log(None, true), None);
}

#[test]
fn bearer_auth_adds_masked_authorization() {
    let mut request = sample_request();
    request.auth = AuthConfig::Bearer { token_env: "TOKEN".to_owned() };
    let masked = request_headers_for_log(&request);
    assert_eq!(
        masked,
        vec![("Authorization".to_owned(), "Bearer <redacted>".to_owned())]
    );
    request.auth = AuthConfig::Basic { user_env: "U".to_owned(), password_env: "P".to_owned() };
    request.headers.push(("authorization".to_owned(), "Basic abc".to_owned()));
    let masked = request_headers_for_log(&request);
    assert_eq!(
        masked,
        vec![("authorization".to_owned(), "Basic <redacted>".to_owned())]
    );
}

#[test]
fn redaction_keeps_order_and_other_values() {
    let mut h = vec![
        ("Accept".to_owned(), "*/*".to_owned()),
        ("PROXY-Authorization".to_owned(), "x".to_owned()),
        ("X-Auth-Token".to_owned(), "y".to_owned()),
    ];
    redact_known_secret_headers(&mut h);
    assert_eq!(h[0].1, "*/*");
    assert_eq!(h[1].1, "<redacted>");
    assert_eq!(h[2].1, "<redacted>");
    upsert_masked_header(&mut h, "accept", "m");
    assert_eq!(h.len(), 3);
    assert_eq!(h[0], ("Accept".to_owned(), "m".to_owned()));
}

#[test]
fn dates_from_epoch_days() {
    assert_eq!(days_to_ymd(0), (1970, 1, 1));
    assert_eq!(days_to_ymd(59), (1970, 3, 1));
    assert_eq!(days_to_ymd(365), (1971, 1, 1));
    assert_eq!(days_to_ymd(789), (1972, 2, 29));
    assert_eq!(days_to_ymd(11016), (2000, 2, 29));
    assert_eq!(days_to_ymd(20577), (2026, 5, 4));
    assert!(is_leap(2000) && !is_leap(1900) && is_leap(2024) && !is_leap(2023));
}

#[test]
fn iso_timestamps() {
    assert_eq!(iso_from_unix_secs(0), "1970-01-01T00:00:00Z");
    assert_eq!(iso_from_unix_secs(1777852800 + 3723), "2026-05-04T01:02:03Z");
}

fn sample_attempt(timeout: bool) -> hamm0r::run::AttemptLog {
    hamm0r::run::AttemptLog {
        run_id: "run-001".to_owned(),
        seq: 7,
        request_method: "POST".to_owned(),
        request_url: "http://example.test".to_owned(),
        request_headers: Vec::new(),
        request_body_size: 0,
        request_body: None,
        response_status: 0,
        response_headers: Vec::new(),
        response_body_size: 0,
        response_body: None,
        duration_ms: 1000,
        error: Some("boom".to_owned()),
        is_timeout: timeout,
    }
}

#[test]
fn build_attempt_error_event_marks_timeout_scope() {
    let attempt = sample_attempt(true);
    let (scope, message) = hamm0r::run::build_attempt_error_event("run-attempt", "Run", &attempt, "boom");
    assert_eq!(scope, "run-attempt-timeout");
    assert!(message.contains("timed out on attempt 7"));
}

#[test]
fn build_attempt_error_event_marks_regular_scope() {
    let attempt = sample_attempt(false);
    let (scope, message) = hamm0r::run::build_attempt_error_event("run-attempt", "Run", &attempt, "boom");
    assert_eq!(scope, "run-attempt");
    assert!(message.contains("hit a request error on attempt 7"));
}

#[test]
fn request_headers_for_log_masks_auth_values() {
    let mut request = sample_request();
    request.auth = AuthConfig::Bearer { token_env: "TOKEN".into() };
    request.headers = vec![
        ("Authorization".to_owned(), "Bearer secret".to_owned()),
        ("Content-Type".to_owned(), "application/json".to_owned()),
    ];
    let headers = request_headers_for_log(&request);
    assert_eq!(get(&headers, "Authorization"), Some(&"Bearer <redacted>".to_owned()));
}

#[test]
fn request_headers_mask_every_case_variant_of_auth_header() {
    let mut request = sample_request();
    request.auth = AuthConfig::CustomHeader {
        header_name: "X-Custom-Key".to_owned(),
        value_env: "K".to_owned(),
    };
    request.headers.push(("X-Custom-Key".to_owned(), "s1".to_owned()));
    request.headers.push(("x-custom-key".to_owned(), "s2".to_owned()));
    let masked = request_headers_for_log(&request);
    assert_eq!(masked.len(), 2);
    assert_eq!(get(&masked, "X-Custom-Key"), Some(&"<redacted>".to_owned()));
    assert_eq!(get(&masked, "x-custom-key"), Some(&"<redacted>".to_owned()));
}
