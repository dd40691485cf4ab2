use hamm0r::binds::{bind_insert, capture_bind, lookup_bind, needs_firing, request_by_id};
use hamm0r::deps::{AdapterType, AuthConfig, BodyFormat, Request};
use hamm0r::error::RunnerError;
use hamm0r::extract::ExtractConfig;
use hamm0r::json::JsonValue;
use hamm0r::template::BindCache;

fn req(id: &str, extract: ExtractConfig, bind: Option<&str>) -> Request {
    Request {
        id: id.into(),
        url: "https://x.test".into(),
        headers: Vec::new(),
        auth: AuthConfig::NoAuth,
        adapter: AdapterType::CustomRest,
        body_format: BodyFormat::Json,
        body: JsonValue::Null,
        extract,
        bind: bind.map(str::to_owned),
    }
}

#[test]
fn bound_value_reads_back_and_others_stay() {
    let mut cache: BindCache = Vec::new();
    bind_insert(&mut cache, "login", "token", "t1".into());
    bind_insert(&mut cache, "login", "user", "alice".into());
    bind_insert(&mut cache, "other", "token", "x".into());
    bind_insert(&mut cache, "login", "token", "t2".into());
    assert_eq!(lookup_bind(&cache, "login", "token").as_deref(), Some("t2"));
    assert_eq!(lookup_bind(&cache, "login", "user").as_deref(), Some("alice"));
    assert_eq!(lookup_bind(&cache, "other", "token").as_deref(), Some("x"));
    assert_eq!(lookup_bind(&cache, "login", "missing"), None);
    assert_eq!(cache.len(), 2);
}

#[test]
fn capture_binds_the_extracted_value() {
    let mut cache: BindCache = Vec::new();
    let login = req("login", ExtractConfig::Jsonpath { path: "$.token".into() }, Some("bearer_token"));
    capture_bind(&login, br#"{"token":"abc"}"#, &mut cache).unwrap();
    assert_eq!(lookup_bind(&cache, "login", "bearer_token").as_deref(), Some("abc"));
}

#[test]
fn capture_without_a_value_is_an_error_and_leaves_the_cache() {
    let mut cache: BindCache = Vec::new();
    let login = req("login", ExtractConfig::Regex { pattern: "token=(\\w+)".into() }, Some("tok"));
    match capture_bind(&login, b"no token here", &mut cache) {
        Err(RunnerError::Extraction { reason }) => {
            assert_eq!(reason, "Request 'login' bound 'tok' but extract returned no value")
        }
        other => panic!("unexpected {other:?}"),
    }
    assert!(cache.is_empty());
    let plain = req("plain", ExtractConfig::Raw, None);
    assert!(capture_bind(&plain, b"body", &mut cache).is_ok());
    assert!(cache.is_empty());
}

#[test]
fn prerequisites_fire_unless_bound_or_target() {
    let mut cache: BindCache = Vec::new();
    let login = req("login", ExtractConfig::Raw, Some("token"));
    let chat = req("chat", ExtractConfig::Raw, None);
    assert!(needs_firing(&login, "chat", &cache));
    assert!(!needs_firing(&chat, "chat", &cache));
    bind_insert(&mut cache, "login", "token", "t".into());
    assert!(!needs_firing(&login, "chat", &cache));
    let registry = vec![login, chat];
    assert_eq!(request_by_id(&registry, "chat").map(|r| r.id.as_str()), Some("chat"));
    assert!(request_by_id(&registry, "nope").is_none());
}
