use hamm0r::pipeline::{
    attempt_response_text, build_judge_input, build_prompt_index, severity_label, PromptEntry, Severity,
};

fn entry(id: &str, text: &str, severity: Severity) -> PromptEntry {
    PromptEntry { id: id.into(), tags: vec!["t".into()], owasp_ref: Some("A01".into()), severity, text: text.into() }
}

#[test]
fn first_entry_of_an_id_wins() {
    let entries = vec![
        ("injection".to_owned(), entry("p1", "first", Severity::High)),
        ("other".to_owned(), entry("p2", "second", Severity::Low)),
        ("dup".to_owned(), entry("p1", "ignored", Severity::Critical)),
    ];
    let index = build_prompt_index(&entries);
    assert_eq!(index.len(), 2);
    assert_eq!(index[0].0, "p1");
    assert_eq!(index[0].1.category, "injection");
    assert_eq!(index[0].1.prompt_text, "first");
    assert_eq!(index[0].1.severity.as_deref(), Some("high"));
    assert_eq!(index[1].1.severity.as_deref(), Some("low"));
}

#[test]
fn judge_input_prefers_the_attempts_own_text() {
    let entries = vec![("injection".to_owned(), entry("p1", "library text", Severity::Medium))];
    let index = build_prompt_index(&entries);
    let meta = Some(&index[0].1);
    let with_text = build_judge_input("p1", Some("sent text"), 200, false, "reply".into(), meta);
    assert_eq!(with_text.prompt_text, "sent text");
    assert_eq!(with_text.category, "injection");
    assert!(!with_text.request_failed);
    let without = build_judge_input("p9", None, 0, false, "reply".into(), None);
    assert_eq!(without.prompt_text, "");
    assert_eq!(without.category, "p9");
    assert!(without.tags.is_empty());
    assert!(without.request_failed);
    assert_eq!(severity_label(Severity::Critical), "critical");
}

#[test]
fn response_text_falls_back_to_the_error() {
    assert_eq!(attempt_response_text(Some("body".into()), Some("err")), "body");
    assert_eq!(attempt_response_text(None, Some("err")), "err");
    assert_eq!(attempt_response_text(None, None), "");
}

#[test]
fn result_id_round_trips_run_and_number() {
    assert_eq!(hamm0r::pipeline::parse_result_id("run-001-7"), Ok(("run-001".to_owned(), 7)));
    assert_eq!(hamm0r::pipeline::parse_result_id("x-4294967295"), Ok(("x".to_owned(), 4294967295)));
}

#[test]
fn judge_run_skips_exactly_the_judged_attempts() {
    let mut opts = hamm0r::pipeline::JudgeRunOptions {
        engagement_dir: "/e".to_owned(),
        prompts_dir: "/p".to_owned(),
        run_id: "run-001".to_owned(),
        model_path: Some("/m.gguf".to_owned()),
        analyzer_version: "0.4".to_owned(),
        force: false,
    };
    let (summary, steps) = hamm0r::pipeline::judge_run(&opts, &[1, 2, 3, 4], &[2, 4, 9]);
    assert_eq!(summary.skipped_existing, 2);
    assert_eq!(summary.judged, 2);
    assert_eq!(steps.len(), 4);
    opts.force = true;
    let (summary, _) = hamm0r::pipeline::judge_run(&opts, &[1, 2, 3, 4], &[2, 4, 9]);
    assert_eq!(summary.skipped_existing, 0);
    assert_eq!(summary.judged, 4);
}
