use hamm0r::deps::AuthConfig;
use hamm0r::runs::{
    format_headers, next_run_id, run_diagnostics, run_startup_error_path, summarize_run, RunEvent, RunStatus,
};

fn names(list: &[&str]) -> Vec<String> {
    list.iter().map(|s| (*s).to_owned()).collect()
}

#[test]
fn next_run_id_follows_the_largest_number() {
    assert_eq!(next_run_id(&names(&[])), "run-001");
    assert_eq!(next_run_id(&names(&["run-001.jsonl", "run-007.jsonl", "run-003.jsonl"])), "run-008");
    assert_eq!(
        next_run_id(&names(&["run-009.verdicts.jsonl", "notes.txt", "run-x.jsonl", "run-002.jsonl"])),
        "run-003"
    );
    assert_eq!(next_run_id(&names(&["run-999.jsonl"])), "run-1000");
}

#[test]
fn startup_error_file_sits_next_to_the_run() {
    assert_eq!(run_startup_error_path("run-004"), "runs/run-004.startup-error.txt");
}

#[test]
fn format_headers_sorts_entries() {
    let headers = vec![
        ("b".to_owned(), "2".to_owned()),
        ("a".to_owned(), "1".to_owned()),
        ("Content-Type".to_owned(), "json".to_owned()),
    ];
    assert_eq!(format_headers(&headers), "Content-Type=json, a=1, b=2");
    assert_eq!(format_headers(&Vec::new()), "");
}

#[test]
fn summary_uses_footer_totals_when_present() {
    let records = vec![
        RunEvent::Header { started_at: "t0".into(), scenario_id: Some("sc".into()) },
        RunEvent::Attempt { failed: false },
        RunEvent::Attempt { failed: true },
        RunEvent::Footer { attempts_total: 5, attempts_failed: 2, status: RunStatus::Crashed },
    ];
    let s = summarize_run("run-002", &records, false, true);
    assert_eq!(s.status, "crashed");
    assert_eq!(s.completed, 2);
    assert_eq!(s.total_prompts, 5);
    assert_eq!(s.errors, 2);
    assert_eq!(s.started_at, "t0");
    assert_eq!(s.scenario_id.as_deref(), Some("sc"));
    assert!(s.analyzed);
}

#[test]
fn summary_without_footer_is_running_or_aborted() {
    let records = vec![RunEvent::Attempt { failed: true }, RunEvent::LeakDetected];
    let s = summarize_run("run-003", &records, true, false);
    assert_eq!(s.status, "running");
    assert_eq!(s.total_prompts, 1);
    assert_eq!(s.errors, 1);
    assert_eq!(summarize_run("run-003", &records, false, false).status, "aborted");
}

#[test]
fn diagnostics_name_missing_auth_variables() {
    let env = vec![("USER".to_owned(), "alice".to_owned()), ("PASS".to_owned(), "   ".to_owned())];
    let auth = AuthConfig::Basic { user_env: "USER".into(), password_env: "PASS".into() };
    let (state, notes) = run_diagnostics(Some("  boom \n"), Some("req"), Some(&auth), &env, 0, false);
    assert_eq!(state, "starting");
    assert_eq!(
        notes,
        vec![
            "boom".to_owned(),
            "Missing env var for basic auth password: PASS".to_owned(),
            "No attempt record written yet. The run likely failed before first response.".to_owned(),
        ]
    );
    let (state, notes) = run_diagnostics(None, Some("gone"), None, &env, 3, false);
    assert_eq!(state, "active");
    assert_eq!(notes, vec!["Request mapping not found for request_id 'gone'.".to_owned()]);
    let (state, notes) = run_diagnostics(None, None, None, &env, 0, true);
    assert_eq!(state, "finished");
    assert!(notes.is_empty());
}

#[test]
fn response_files_are_numbered_with_four_digits() {
    assert_eq!(hamm0r::pipeline::response_body_file("run-001", 7), "responses/run-001/0007.txt");
    assert_eq!(hamm0r::pipeline::response_body_file("run-001", 12345), "responses/run-001/12345.txt");
}

#[test]
fn attempt_log_message_lists_fields_and_bodies() {
    let attempt = hamm0r::run::AttemptLog {
        run_id: "run-001".into(),
        seq: 3,
        request_method: "POST".into(),
        request_url: "https://x.test".into(),
        request_headers: vec![("b".into(), "2".into()), ("a".into(), "1".into())],
        request_body_size: 10,
        request_body: Some("{}".into()),
        response_status: 200,
        response_headers: Vec::new(),
        response_body_size: 2,
        response_body: None,
        duration_ms: 15,
        error: Some("late".into()),
        is_timeout: false,
    };
    assert_eq!(
        hamm0r::runs::attempt_log_message(&attempt),
        "Attempt completed seq=3\nrequest.method=POST\nrequest.url=https://x.test\nrequest.headers=a=1, b=2\nrequest.body_size=10\nresponse.status=200\nresponse.headers=\nresponse.body_size=2\nduration_ms=15\nerror=late\nrequest.body:\n{}"
    );
}
