use hamm0r::extract::ExtractConfig;
use hamm0r::deps::{
    extract_refs_from_template, extract_request_dependencies, topological_order, AdapterType, AuthConfig,
    BindRef, BodyFormat, Request,
};
use hamm0r::json::JsonValue;

fn req(
    id: &str,
    url: &str,
    headers: &[(&str, &str)],
    body_text: &str,
    bind: Option<&str>,
) -> Request {
    Request {
        id: id.into(),
        url: url.into(),
        headers: headers
            .iter()
            .map(|(k, v)| ((*k).to_owned(), (*v).to_owned()))
            .collect(),
        auth: AuthConfig::NoAuth,
        adapter: AdapterType::CustomRest,
        body_format: BodyFormat::Json,
        body: JsonValue::Object(vec![("msg".to_owned(), JsonValue::Str(body_text.to_owned()))]),
        extract: ExtractConfig::Raw,
        bind: bind.map(str::to_owned),
    }
}

#[test]
fn extracts_simple_bind_ref_from_header() {
    let r = req(
        "chat",
        "https://x.test/y",
        &[("Authorization", "Bearer {{login.bearer_token}}")],
        "{{prompt}}",
        None,
    );
    let deps = extract_request_dependencies(&r);
    assert_eq!(
        deps,
        vec![BindRef {
            request_id: "login".into(),
            bind: "bearer_token".into(),
        }]
    );
}

#[test]
fn ignores_bare_prompt_placeholder() {
    let r = req("chat", "https://x.test/y", &[], "say {{prompt}} now", None);
    assert!(extract_request_dependencies(&r).is_empty());
}

#[test]
fn tolerates_jinja_whitespace_and_filters() {
    let s = "{{ login.bearer_token | upper }} and {{login.session}}";
    let refs = extract_refs_from_template(s);
    assert_eq!(
        refs,
        vec![
            BindRef {
                request_id: "login".into(),
                bind: "bearer_token".into(),
            },
            BindRef {
                request_id: "login".into(),
                bind: "session".into(),
            },
        ]
    );
}

#[test]
fn topological_order_simple_chain() {
    let reg = vec![
        req(
            "login",
            "https://x.test/login",
            &[],
            "creds",
            Some("bearer_token"),
        ),
        req(
            "chat",
            "https://x.test/chat",
            &[("Authorization", "Bearer {{login.bearer_token}}")],
            "{{prompt}}",
            None,
        ),
    ];
    let order = topological_order(&["chat".into()], &reg).unwrap();
    assert_eq!(order, vec!["login".to_string(), "chat".to_string()]);
}

#[test]
fn topological_order_two_deep_chain() {
    let reg = vec![
        req("login", "https://x.test/login", &[], "creds", Some("token")),
        req(
            "bootstrap",
            "https://x.test/boot",
            &[("Authorization", "Bearer {{login.token}}")],
            "go",
            Some("session"),
        ),
        req(
            "chat",
            "https://x.test/chat",
            &[
                ("Authorization", "Bearer {{login.token}}"),
                ("X-Session", "{{bootstrap.session}}"),
            ],
            "{{prompt}}",
            None,
        ),
    ];
    let order = topological_order(&["chat".into()], &reg).unwrap();
    let pos = |id: &str| order.iter().position(|s| s == id).unwrap();
    assert!(pos("login") < pos("bootstrap"));
    assert!(pos("bootstrap") < pos("chat"));
}

#[test]
fn cycle_is_detected() {
    let reg = vec![
        req(
            "a",
            "https://x.test/a",
            &[("X", "{{b.token}}")],
            "go",
            Some("token"),
        ),
        req(
            "b",
            "https://x.test/b",
            &[("X", "{{a.token}}")],
            "go",
            Some("token"),
        ),
    ];
    let err = topological_order(&["a".into()], &reg).expect_err("cycle must be rejected");
    assert!(err.message().to_lowercase().contains("cycl"));
}

#[test]
fn unknown_request_id_in_reference_errors() {
    let reg = vec![req(
        "chat",
        "https://x.test/chat",
        &[("Authorization", "Bearer {{ghost.token}}")],
        "{{prompt}}",
        None,
    )];
    let err =
        topological_order(&["chat".into()], &reg).expect_err("unknown id must be rejected");
    let msg = err.message().to_lowercase();
    assert!(msg.contains("unknown") && msg.contains("ghost"));
}

#[test]
fn reference_to_undeclared_bind_errors() {
    let reg = vec![
        req("login", "https://x.test/login", &[], "creds", None),
        req(
            "chat",
            "https://x.test/chat",
            &[("Authorization", "Bearer {{login.token}}")],
            "{{prompt}}",
            None,
        ),
    ];
    let err = topological_order(&["chat".into()], &reg)
        .expect_err("unbound reference must be rejected");
    let msg = err.message();
    assert!(msg.contains("does not bind"));
}

// ── Beyond the original suite ───────────────────────────────────────────────

#[test]
fn pairs_stop_at_the_second_dot_and_need_letters() {
    let refs = extract_refs_from_template("{{ a.b.c }} {{ 1x.y }} {{ x-1.y_2 }} {{ prompt.x }}");
    assert_eq!(
        refs,
        vec![
            BindRef { request_id: "a".into(), bind: "b".into() },
            BindRef { request_id: "x".into(), bind: "y".into() },
            BindRef { request_id: "x-1".into(), bind: "y_2".into() },
        ]
    );
}

#[test]
fn blocks_need_two_closing_braces() {
    assert!(extract_refs_from_template("{{ a.b }").is_empty());
    assert!(extract_refs_from_template("{ a.b }}").is_empty());
    assert_eq!(extract_refs_from_template("{{{ a.b }}").len(), 1);
}

#[test]
fn dependencies_scan_keys_text_bodies_and_dedupe() {
    let mut r = req(
        "chat",
        "https://x.test/{{login.token}}",
        &[("{{login.token}}", "{{other.key}}")],
        "x",
        None,
    );
    r.body = JsonValue::Array(vec![
        JsonValue::Object(vec![("{{k.v}}".to_owned(), JsonValue::Null)]),
        JsonValue::Number("3".to_owned()),
    ]);
    let deps = extract_request_dependencies(&r);
    let ids: Vec<&str> = deps.iter().map(|d| d.request_id.as_str()).collect();
    assert_eq!(ids, vec!["login", "other", "k"]);

    r.body_format = BodyFormat::Text;
    r.body = JsonValue::Str("{{t.x}}".to_owned());
    let ids2: Vec<String> = extract_request_dependencies(&r)
        .into_iter()
        .map(|d| d.request_id)
        .collect();
    assert_eq!(ids2, vec!["login", "other", "t"]);
}

#[test]
fn unknown_target_errors() {
    let reg = vec![req("login", "https://x.test/login", &[], "creds", None)];
    let err = topological_order(&["nope".into()], &reg).unwrap_err();
    assert_eq!(err.message(), "response extraction failed: dependency references unknown Request 'nope'");
}

#[test]
fn undeclared_bind_message_names_the_declared_bind() {
    let reg = vec![
        req("login", "https://x.test/login", &[], "creds", Some("session")),
        req("chat", "https://x.test/chat", &[("A", "{{login.token}}")], "x", None),
    ];
    let err = topological_order(&["chat".into()], &reg).unwrap_err();
    assert_eq!(
        err.message(),
        "response extraction failed: Request 'chat' references {{login.token}} but Request 'login' does not bind 'token' (declared: Some(\"session\"))"
    );
}

#[test]
fn target_fires_last_and_independent_targets_all_appear() {
    let reg = vec![
        req("a", "u", &[], "x", Some("t")),
        req("b", "u", &[("H", "{{a.t}}")], "x", Some("t")),
        req("c", "u", &[], "x", None),
    ];
    let order = topological_order(&["b".into(), "c".into()], &reg).unwrap();
    assert_eq!(order.len(), 3);
    let pos = |id: &str| order.iter().position(|s| s == id).unwrap();
    assert!(pos("a") < pos("b"));
    let single = topological_order(&["b".into()], &reg).unwrap();
    assert_eq!(single.last().map(String::as_str), Some("b"));
}

#[test]
fn self_reference_is_a_cycle() {
    let reg = vec![req("a", "u", &[("H", "{{a.t}}")], "x", Some("t"))];
    let err = topological_order(&["a".into()], &reg).unwrap_err();
    assert_eq!(err.message(), "response extraction failed: cyclic Request dependencies among: a");
}
