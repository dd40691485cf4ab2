use hamm0r::json::JsonValue;
use hamm0r::json_template::{render_json_value, render_json_value_with};

fn s(v: &str) -> JsonValue {
    JsonValue::Str(v.to_owned())
}

fn obj(members: Vec<(&str, JsonValue)>) -> JsonValue {
    JsonValue::Object(members.into_iter().map(|(k, v)| (k.to_owned(), v)).collect())
}

#[test]
fn json_value_rendering_preserves_types() {
    let input = obj(vec![
        ("message", s("{{ prompt }}")),
        ("enabled", JsonValue::Bool(true)),
        ("count", JsonValue::Number("3".to_owned())),
        ("nested", JsonValue::Array(vec![s("prefix {{ prompt }}"), JsonValue::Null])),
    ]);

    let rendered = render_json_value(&input, "hello", &Vec::new()).unwrap();

    // Members come back in key order, as in serde_json's map.
    assert_eq!(
        rendered,
        obj(vec![
            ("count", JsonValue::Number("3".to_owned())),
            ("enabled", JsonValue::Bool(true)),
            ("message", s("hello")),
            ("nested", JsonValue::Array(vec![s("prefix hello"), JsonValue::Null])),
        ])
    );
}

#[test]
fn json_value_rendering_supports_binds_and_keys() {
    let binds = vec![(
        "login".to_owned(),
        vec![
            ("field".to_owned(), "token".to_owned()),
            ("value".to_owned(), "abc123".to_owned()),
        ],
    )];

    let input = obj(vec![("{{ login.field }}", s("{{ login.value }}")), ("prompt", s("{{ prompt }}"))]);

    let rendered = render_json_value_with(&input, "attack", &binds, &Vec::new()).unwrap();

    assert_eq!(rendered, obj(vec![("prompt", s("attack")), ("token", s("abc123"))]));
}

#[test]
fn json_value_rendering_merges_keys_that_render_alike() {
    let binds = vec![("login".to_owned(), vec![("field".to_owned(), "a".to_owned())])];
    let input = obj(vec![("a", s("first")), ("{{ login.field }}", s("second")), ("b", s("third"))]);

    let rendered = render_json_value_with(&input, "p", &binds, &Vec::new()).unwrap();

    assert_eq!(rendered, obj(vec![("a", s("second")), ("b", s("third"))]));
}

#[test]
fn json_value_rendering_reports_a_broken_key() {
    let input = obj(vec![("{{ broken", s("x"))]);
    assert!(render_json_value(&input, "p", &Vec::new()).is_err());
}
