use hamm0r::deps::{AdapterType, AuthConfig, BodyFormat, Request};
use hamm0r::extract::ExtractConfig;
use hamm0r::json::JsonValue;
use hamm0r::run_log::{
    attempt_record, dedup_ids, payload_run_log, record_event, run_footer_record, run_header_record,
    scenario_run_log, AdapterReply, AttemptMeta, Exchange, ExchangeFailure, RequestOutcome, RunRecord,
};
use hamm0r::run::ScenarioStep;
use hamm0r::run_requests::Payload;
use hamm0r::runs::{RunEvent, RunStatus};

fn request() -> Request {
    Request {
        id: "req-1".to_owned(),
        url: "https://example.test/chat".to_owned(),
        headers: vec![("Authorization".to_owned(), "Bearer s".to_owned())],
        auth: AuthConfig::NoAuth,
        adapter: AdapterType::CustomRest,
        body_format: BodyFormat::Json,
        body: JsonValue::Object(vec![("q".to_owned(), JsonValue::Str("{{ prompt }}".to_owned()))]),
        extract: ExtractConfig::Raw,
        bind: None,
    }
}

fn meta(seq: u32) -> AttemptMeta {
    AttemptMeta {
        seq,
        prompt_id: "p1".to_owned(),
        payload_id: "p1-0".to_owned(),
        step_id: None,
        iteration: None,
        session: Some("default".to_owned()),
        prompt_text: Some("hi".to_owned()),
    }
}

#[test]
fn header_lists_each_prompt_once() {
    let ids = vec!["a".to_owned(), "b".to_owned(), "a".to_owned()];
    assert_eq!(dedup_ids(&ids), vec!["a".to_owned(), "b".to_owned()]);
    match run_header_record("run-001", "eng", "req-1", "0.4.0", "2025-01-01T00:00:00Z", &ids) {
        RunRecord::Header(h) => {
            assert_eq!(h.run_id, "run-001");
            assert_eq!(h.engagement, "eng");
            assert_eq!(h.prompt_files, vec!["a".to_owned(), "b".to_owned()]);
        }
        _ => panic!("not a header"),
    }
}

#[test]
fn footer_marks_run_completed() {
    match run_footer_record("run-001", 5, 2, "t") {
        RunRecord::Footer(f) => {
            assert_eq!(f.attempts_total, 5);
            assert_eq!(f.attempts_failed, 2);
            assert_eq!(f.status, RunStatus::Completed);
        }
        _ => panic!("not a footer"),
    }
}

#[test]
fn attempt_with_body_points_at_body_file() {
    let outcome = RequestOutcome::from_adapter(
        Ok(AdapterReply {
            status: 200,
            response_headers: vec![],
            body_bytes: b"hello".to_vec(),
            first_byte_ms: Some(3),
            duration_ms: 9,
        }),
        50,
    );
    let rec = attempt_record(&meta(7), &outcome, "run-001", "POST", &request(), "t0", "t1", &vec![]);
    let RunRecord::Attempt(a) = &rec else { panic!("not an attempt") };
    assert_eq!(a.seq, 7);
    assert_eq!(a.response.body_file.as_deref(), Some("responses/run-001/0007.txt"));
    assert_eq!(a.response.body_size, 5);
    assert_eq!(a.request.headers, vec![("Authorization".to_owned(), "<redacted>".to_owned())]);
    assert_eq!(a.request.body_size, "{\"q\":\"hi\"}".len() as u64);
    assert_eq!(a.timing.first_byte_at.as_deref(), Some("t1"));
    assert_eq!(a.timing.duration_ms, 9);
    assert!(matches!(record_event(&rec), RunEvent::Attempt { failed: false }));
}

#[test]
fn failed_exchange_records_error_without_body() {
    let outcome = RequestOutcome::from_adapter(
        Err(ExchangeFailure { message: "timed out".to_owned(), is_timeout: true }),
        50,
    );
    assert_eq!(outcome.status, 0);
    assert!(outcome.is_timeout);
    let rec = attempt_record(&meta(1), &outcome, "run-001", "POST", &request(), "t0", "t1", &vec![]);
    let RunRecord::Attempt(a) = &rec else { panic!("not an attempt") };
    assert_eq!(a.response.body_file, None);
    assert_eq!(a.response.error.as_deref(), Some("timed out"));
    assert_eq!(a.timing.duration_ms, 50);
    assert_eq!(a.timing.first_byte_at, None);
    assert!(matches!(record_event(&rec), RunEvent::Attempt { failed: true }));
}

#[test]
fn completed_log_summarizes_as_completed() {
    let ids = vec!["p1".to_owned()];
    let outcome = RequestOutcome::from_adapter(
        Err(ExchangeFailure { message: "refused".to_owned(), is_timeout: false }),
        5,
    );
    let records = vec![
        run_header_record("run-001", "eng", "req-1", "0.4.0", "t0", &ids),
        attempt_record(&meta(1), &outcome, "run-001", "POST", &request(), "t0", "t1", &vec![]),
        run_footer_record("run-001", 1, 1, "t2"),
    ];
    let events: Vec<RunEvent> = records.iter().map(record_event).collect();
    let s = hamm0r::runs::summarize_run("run-001", &events, false, false);
    assert_eq!(s.status, "completed");
    assert_eq!(s.total_prompts, 1);
    assert_eq!(s.errors, 1);
    assert_eq!(s.started_at, "t0");
}

fn reply(status: u16) -> Exchange {
    Exchange {
        outcome: RequestOutcome::from_adapter(
            Ok(AdapterReply {
                status,
                response_headers: vec![],
                body_bytes: b"ok".to_vec(),
                first_byte_ms: None,
                duration_ms: 1,
            }),
            1,
        ),
        sent_at: "s".to_owned(),
        received_at: "r".to_owned(),
    }
}

fn error_exchange() -> Exchange {
    Exchange {
        outcome: RequestOutcome::from_adapter(
            Err(ExchangeFailure { message: "boom".to_owned(), is_timeout: false }),
            2,
        ),
        sent_at: "s".to_owned(),
        received_at: "r".to_owned(),
    }
}

fn payload(id: &str) -> Payload {
    Payload {
        prompt_id: id.to_owned(),
        payload_id: format!("{id}-0"),
        text: "hi".to_owned(),
        session: "default".to_owned(),
    }
}

#[test]
fn payload_log_has_header_recorded_attempts_and_footer() {
    let payloads = vec![payload("a"), payload("b"), payload("a")];
    let exchanges = vec![Some(reply(200)), None, Some(reply(500))];
    let log = payload_run_log("run-001", "eng", "0.4", "t0", "POST", &request(), &vec![], &payloads, &exchanges, "t9");
    assert_eq!(log.len(), 4);
    let RunRecord::Header(h) = &log[0] else { panic!("no header") };
    assert_eq!(h.prompt_files, vec!["a".to_owned(), "b".to_owned()]);
    let RunRecord::Attempt(a1) = &log[1] else { panic!("no attempt") };
    let RunRecord::Attempt(a3) = &log[2] else { panic!("no attempt") };
    assert_eq!(a1.seq, 1);
    assert_eq!(a3.seq, 3);
    assert_eq!(a3.response.status, 500);
    assert_eq!(a3.response.body_file.as_deref(), Some("responses/run-001/0003.txt"));
    let RunRecord::Footer(f) = &log[3] else { panic!("no footer") };
    assert_eq!(f.attempts_total, 3);
    assert_eq!(f.attempts_failed, 1);
}

#[test]
fn scenario_log_numbers_passes_in_order() {
    let steps = vec![
        ScenarioStep {
            id: "step-001".to_owned(),
            request_id: None,
            prompt_id: Some("p1".to_owned()),
            prompt_text: "one".to_owned(),
            session: "A".to_owned(),
        },
        ScenarioStep {
            id: "step-002".to_owned(),
            request_id: Some("other".to_owned()),
            prompt_id: None,
            prompt_text: "two".to_owned(),
            session: "B".to_owned(),
        },
    ];
    let mut other = request();
    other.id = "other".to_owned();
    other.url = "https://example.test/other".to_owned();
    let exchanges = vec![reply(200), error_exchange(), reply(200), reply(200)];
    let log = scenario_run_log(
        "run-002", "eng", "0.4", "t0", "POST", &request(), &vec!["PUT".to_owned()], &vec![other],
        &vec![], &steps, &exchanges, "t9",
    );
    assert_eq!(log.len(), 6);
    let RunRecord::Header(h) = &log[0] else { panic!("no header") };
    assert_eq!(h.prompt_files, vec!["p1".to_owned(), "custom".to_owned()]);
    let RunRecord::Attempt(a2) = &log[2] else { panic!("no attempt") };
    assert_eq!(a2.seq, 2);
    assert_eq!(a2.iteration, Some(1));
    assert_eq!(a2.step_id.as_deref(), Some("step-002"));
    assert_eq!(a2.prompt_id, "custom");
    assert_eq!(a2.request.method, "PUT");
    assert_eq!(a2.request.url, "https://example.test/other");
    assert_eq!(a2.response.error.as_deref(), Some("boom"));
    let RunRecord::Attempt(a3) = &log[3] else { panic!("no attempt") };
    assert_eq!(a3.seq, 3);
    assert_eq!(a3.iteration, Some(2));
    assert_eq!(a3.session.as_deref(), Some("A"));
    assert_eq!(a3.request.method, "POST");
    let RunRecord::Footer(f) = &log[5] else { panic!("no footer") };
    assert_eq!(f.attempts_total, 4);
    assert_eq!(f.attempts_failed, 1);
}
