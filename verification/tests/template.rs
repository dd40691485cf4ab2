use hamm0r::error::RunnerError;
use hamm0r::template::{render, render_headers, render_headers_with, render_with, BindCache, Pairs};

fn no_env() -> Pairs {
    Vec::new()
}

fn header<'a>(headers: &'a Pairs, name: &str) -> &'a str {
    headers.iter().find(|(k, _)| k == name).map(|(_, v)| v.as_str()).unwrap()
}

#[test]
fn basic_substitution() {
    let out = render("Say: {{ prompt }}", "hello world", &no_env()).unwrap();
    assert_eq!(out, "Say: hello world");
}

#[test]
fn payload_not_html_escaped() {
    let out = render("{{ prompt }}", "<script>alert(1)</script>", &no_env()).unwrap();
    assert_eq!(out, "<script>alert(1)</script>");
}

#[test]
fn no_prompt_variable_passes_through() {
    let out = render("static body", "ignored", &no_env()).unwrap();
    assert_eq!(out, "static body");
}

#[test]
fn trailing_newline_preserved() {
    let out = render("body\n", "x", &no_env()).unwrap();
    assert_eq!(out, "body\n", "trailing \\n must be kept verbatim");
}

#[test]
fn bind_substitution_into_header_value() {
    let binds: BindCache = vec![(
        "login".to_owned(),
        vec![("bearer_token".to_owned(), "abc123".to_owned())],
    )];
    let out = render_with(
        "Authorization: Bearer {{ login.bearer_token }}",
        "ignored",
        &binds,
        &no_env(),
    )
    .unwrap();
    assert_eq!(out, "Authorization: Bearer abc123");
}

#[test]
fn bind_and_prompt_coexist_in_one_template() {
    let binds: BindCache = vec![(
        "bootstrap".to_owned(),
        vec![("session".to_owned(), "sess-42".to_owned())],
    )];
    let out = render_with(
        "session={{ bootstrap.session }}, attack={{ prompt }}",
        "ignore all",
        &binds,
        &no_env(),
    )
    .unwrap();
    assert_eq!(out, "session=sess-42, attack=ignore all");
}

#[test]
fn missing_bind_errors() {
    let binds: BindCache = Vec::new();
    let err = render_with("{{ login.bearer_token }}", "x", &binds, &no_env())
        .expect_err("missing bind must error");
    let msg = err.message();
    assert!(
        msg.to_lowercase().contains("undefined") || msg.to_lowercase().contains("not"),
        "expected an undefined-variable error, got: {msg}"
    );
}

#[test]
fn missing_env_var_renders_empty() {
    let out = render("v={{ env.HAMM0R_DEFINITELY_NOT_SET_XYZ }}", "x", &no_env()).unwrap();
    assert_eq!(out, "v=");
}

#[test]
fn header_rendering() {
    let headers: Pairs = vec![
        ("X-Payload".into(), "value={{ prompt }}".into()),
        ("Content-Type".into(), "application/json".into()),
    ];
    let rendered = render_headers(&headers, "attack", &no_env()).unwrap();
    assert_eq!(header(&rendered, "X-Payload"), "value=attack");
    assert_eq!(header(&rendered, "Content-Type"), "application/json");
}

// ── Beyond the original suite ───────────────────────────────────────────────

#[test]
fn env_values_come_from_the_given_environment() {
    let env: Pairs = vec![("HAMM0R_TEMPLATE_TEST_VAR".to_owned(), "hello".to_owned())];
    let out = render("v={{ env.HAMM0R_TEMPLATE_TEST_VAR }}", "x", &env).unwrap();
    assert_eq!(out, "v=hello");
}

#[test]
fn reserved_bind_groups_are_not_exposed() {
    let binds: BindCache = vec![("prompt".to_owned(), vec![("x".to_owned(), "y".to_owned())])];
    let out = render_with("{{ prompt }}", "payload", &binds, &no_env()).unwrap();
    assert_eq!(out, "payload");
}

#[test]
fn syntax_error_is_a_template_error() {
    let err = render("{{ unclosed", "x", &no_env()).unwrap_err();
    assert!(matches!(err, RunnerError::Template { .. }));
    assert!(err.message().starts_with("template render failed: "));
}

#[test]
fn header_rendering_stops_at_first_failure() {
    let headers: Pairs = vec![
        ("A".into(), "{{ prompt }}".into()),
        ("B".into(), "{{ broken".into()),
    ];
    let binds: BindCache = Vec::new();
    assert!(render_headers_with(&headers, "x", &binds, &no_env()).is_err());
}

#[test]
fn env_var_substitution() {
    let env = vec![("PATH".to_owned(), "/usr/bin:/bin".to_owned())];
    let out = hamm0r::template::render("PATH={{ env.PATH }}", "ignored", &env).unwrap();
    assert_eq!(out, "PATH=/usr/bin:/bin");
}

#[test]
fn env_with_explicit_test_var() {
    let env = vec![("HAMM0R_TEMPLATE_TEST_VAR".to_owned(), "hello".to_owned())];
    let out = hamm0r::template::render("v={{ env.HAMM0R_TEMPLATE_TEST_VAR }}", "x", &env).unwrap();
    assert_eq!(out, "v=hello");
}

#[test]
fn header_values_without_prompt_marker_are_kept() {
    let headers: Pairs = vec![
        ("X-Static".into(), "{{ other }}".into()),
        ("X-Prompt".into(), "{{prompt}}!".into()),
        ("X-Spaced".into(), "{{\tprompt\n}}".into()),
    ];
    let rendered = render_headers(&headers, "p", &no_env()).unwrap();
    assert_eq!(header(&rendered, "X-Static"), "{{ other }}");
    assert_eq!(header(&rendered, "X-Prompt"), "p!");
    assert_eq!(header(&rendered, "X-Spaced"), "p");
}
