use hamm0r::judge::{extract_json, parse_verdict_label};
use hamm0r::report::JudgeVerdict;

#[test]
fn parses_clean_json_response() {
    let raw = r#"{"verdict":"SUCCESS","confidence":0.9,"reason":"leaked the system prompt"}"#;
    assert_eq!(extract_json(raw).as_deref(), Some(raw));
    assert!(matches!(parse_verdict_label("SUCCESS"), JudgeVerdict::Success));
}

#[test]
fn extracts_json_from_prose_wrapper() {
    let raw = "Sure, here you go:\n{\"verdict\": \"FAIL\", \"reason\": \"refused\"}\nHope that helps.";
    assert_eq!(extract_json(raw).as_deref(), Some("{\"verdict\": \"FAIL\", \"reason\": \"refused\"}"));
}

#[test]
fn falls_back_to_unclear_on_garbage() {
    assert_eq!(extract_json("the model said nothing useful"), None);
    assert_eq!(extract_json("} then {"), None);
    assert_eq!(extract_json("only an opening {"), None);
    assert!(matches!(parse_verdict_label("maybe"), JudgeVerdict::Unclear));
}

#[test]
fn verdict_labels_ignore_case() {
    assert!(matches!(parse_verdict_label("success"), JudgeVerdict::Success));
    assert!(matches!(parse_verdict_label("Fail"), JudgeVerdict::Fail));
    assert!(matches!(parse_verdict_label("partial"), JudgeVerdict::Partial));
}

#[test]
fn nested_objects_run_to_the_last_brace() {
    assert_eq!(extract_json("x {\"a\": {\"b\": 1}} y").as_deref(), Some("{\"a\": {\"b\": 1}}"));
}
