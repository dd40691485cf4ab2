use hamm0r::report::{render_markdown_report, JudgeVerdict, ReportAttempt, ReportData, TriageStatus};
use hamm0r::report_build::{
    build_groups, build_report_data, latest_verdicts, sort_attempts, ReportBuildInput, ReportVerdict, TriageEntry,
};
use hamm0r::report_html::{render_html_report, report_json};
use hamm0r::report_keys::compare_owasp_keys;
use std::cmp::Ordering;

fn verdict(seq: u32, v: JudgeVerdict, pct: u32, category: &str, owasp: Option<&str>, severity: Option<&str>, rationale: &str) -> ReportVerdict {
    ReportVerdict {
        seq,
        verdict: v,
        confidence_pct: pct,
        category: category.into(),
        owasp_ref: owasp.map(str::to_owned),
        severity: severity.map(str::to_owned),
        rationale: rationale.into(),
    }
}

fn attempt(seq: u32, prompt_id: &str) -> ReportAttempt {
    ReportAttempt {
        seq,
        prompt_id: prompt_id.into(),
        step_id: None,
        iteration: None,
        session: None,
        http_status: 200,
        latency_ms: None,
        response_excerpt: String::new(),
    }
}

fn sample_data() -> ReportData {
    build_report_data(ReportBuildInput {
        engagement_slug: "2026-04-26-acme-chatbot".into(),
        run_id: "run-001".into(),
        generated_at: "2026-04-26T10:02:00Z".into(),
        started_at: Some("2026-04-26T10:00:00Z".into()),
        finished_at: Some("2026-04-26T10:01:45Z".into()),
        judge_model: Some("heuristic-v0".into()),
        attempts: vec![
            ReportAttempt {
                seq: 1,
                prompt_id: "inj-001".into(),
                step_id: Some("step-001".into()),
                iteration: Some(1),
                session: Some("A".into()),
                http_status: 200,
                latency_ms: Some(312),
                response_excerpt: "The system prompt is: internal policy data".into(),
            },
            ReportAttempt {
                seq: 2,
                prompt_id: "inj-002".into(),
                step_id: Some("step-002".into()),
                iteration: Some(1),
                session: Some("A".into()),
                http_status: 200,
                latency_ms: Some(280),
                response_excerpt: "I cannot help with this request.".into(),
            },
        ],
        verdicts: vec![
            verdict(
                1,
                JudgeVerdict::Success,
                88,
                "injection-classics",
                Some("A01"),
                Some("high"),
                "Model disclosed protected instruction text.",
            ),
            verdict(
                2,
                JudgeVerdict::Fail,
                91,
                "injection-classics",
                Some("A01"),
                Some("medium"),
                "Model refused the malicious instruction.",
            ),
        ],
        triage: Vec::new(),
    })
}

fn sample_data_with_triage() -> ReportData {
    build_report_data(ReportBuildInput {
        engagement_slug: "2026-04-26-acme-chatbot".into(),
        run_id: "run-001".into(),
        generated_at: "2026-04-26T10:02:00Z".into(),
        started_at: Some("2026-04-26T10:00:00Z".into()),
        finished_at: Some("2026-04-26T10:01:45Z".into()),
        judge_model: Some("heuristic-v0".into()),
        attempts: vec![ReportAttempt {
            seq: 1,
            prompt_id: "inj-001".into(),
            step_id: None,
            iteration: None,
            session: None,
            http_status: 200,
            latency_ms: Some(100),
            response_excerpt: "leaked secrets".into(),
        }],
        verdicts: vec![verdict(1, JudgeVerdict::Success, 90, "injection-classics", Some("A01"), Some("high"), "leaked")],
        triage: vec![TriageEntry {
            seq: 1,
            status: TriageStatus::Confirmed,
            note: Some("verified by hand; reproduces".into()),
        }],
    })
}

#[test]
fn evidence_row_defaults_triage_to_unreviewed_when_no_entry() {
    let data = sample_data();
    for row in &data.evidence_rows {
        assert_eq!(row.triage_status, "unreviewed");
        assert_eq!(row.triage_note, "");
    }
}

#[test]
fn evidence_row_carries_triage_status_and_note_when_present() {
    let data = sample_data_with_triage();
    let row = data.evidence_rows.iter().find(|r| r.seq == 1).unwrap();
    assert_eq!(row.triage_status, "confirmed");
    assert_eq!(row.triage_note, "verified by hand; reproduces");
}

#[test]
fn markdown_evidence_section_renders_triage_status_and_note() {
    let md = render_markdown_report(&sample_data_with_triage());
    assert!(md.contains("| Triage | confirmed |"));
    assert!(md.contains("| Triage note | verified by hand; reproduces |"));
}

#[test]
fn markdown_evidence_section_omits_empty_triage_note() {
    let md = render_markdown_report(&sample_data());
    assert!(md.contains("| Triage | unreviewed |"));
    assert!(!md.contains("| Triage note |"));
}

#[test]
fn render_markdown_includes_headers_summary_and_findings() {
    let md = render_markdown_report(&sample_data());
    assert!(md.starts_with("# Report — 2026-04-26-acme-chatbot"));
    assert!(md.contains("- Run: `run-001`"));
    assert!(md.contains("## Summary"));
    assert!(md.contains("| Attempts | 2 |"));
    assert!(md.contains("| Judged | 2 |"));
    assert!(md.contains("## Findings by OWASP reference"));
    assert!(md.contains("### A01 —"));
    assert!(md.contains("## Findings by category"));
    assert!(md.contains("### injection-classics —"));
    assert!(md.contains("## Evidence"));
    assert!(md.contains("### #1 · inj-001 · SUCCESS"));
    assert!(md.contains("```"));
}

#[test]
fn render_markdown_escapes_pipes_and_newlines_in_table_cells() {
    let mut data = sample_data();
    data.evidence_rows[0].rationale = "has | pipe\nand newline".into();
    data.groups_by_owasp[0].findings[0].rationale = "has | pipe\nand newline".into();
    let md = render_markdown_report(&data);
    assert!(md.contains("has \\| pipe and newline"));
    for line in md.lines().filter(|l| l.starts_with("| 1 |")) {
        let total = line.matches('|').count();
        let escaped = line.matches("\\|").count();
        assert_eq!(total - escaped, 8, "findings row should have 8 border pipes (7 columns), got: {line}");
    }
}

#[test]
fn evidence_rows_show_verdict_fields_and_excerpts() {
    let data = sample_data();
    let row = &data.evidence_rows[0];
    assert_eq!(row.verdict, "SUCCESS");
    assert_eq!(row.confidence, "88%");
    assert_eq!(row.latency_ms, "312ms");
    assert_eq!(row.iteration, "1");
    assert_eq!(row.step_id, "step-001");
    assert_eq!(row.owasp_ref, "A01");
    assert_eq!(row.response_excerpt, "The system prompt is: internal policy data");
    assert_eq!(data.summary.vulnerable_total, 1);
    assert_eq!(data.summary.fail_total, 1);
    assert_eq!(data.started_at, "2026-04-26T10:00:00Z");
    assert_eq!(data.judge.provider, "Heuristic");
}

#[test]
fn unjudged_attempt_is_pending() {
    let data = build_report_data(ReportBuildInput {
        engagement_slug: "e".into(),
        run_id: "r".into(),
        generated_at: "g".into(),
        started_at: None,
        finished_at: None,
        judge_model: None,
        attempts: vec![attempt(5, "p")],
        verdicts: Vec::new(),
        triage: Vec::new(),
    });
    let row = &data.evidence_rows[0];
    assert_eq!(row.verdict, "PENDING");
    assert_eq!(row.confidence, "-");
    assert_eq!(row.rationale, "Not judged");
    assert_eq!(row.step_id, "-");
    assert_eq!(row.latency_ms, "-");
    assert_eq!(data.started_at, "-");
    assert_eq!(data.summary.judged_total, 0);
    assert!(data.groups_by_owasp.is_empty());
}

#[test]
fn later_verdict_for_an_attempt_replaces_the_earlier() {
    let vs = vec![
        verdict(3, JudgeVerdict::Fail, 10, "c", None, None, "first"),
        verdict(1, JudgeVerdict::Unclear, 20, "c", None, None, "one"),
        verdict(3, JudgeVerdict::Success, 30, "c", None, None, "second"),
    ];
    let out = latest_verdicts(&vs);
    assert_eq!(out.len(), 2);
    assert_eq!(out[0].seq, 1);
    assert_eq!(out[1].seq, 3);
    assert_eq!(out[1].rationale, "second");
}

#[test]
fn attempts_sort_stably_by_number() {
    let sorted = sort_attempts(vec![attempt(3, "a"), attempt(1, "b"), attempt(3, "c"), attempt(2, "d")]);
    let ids: Vec<&str> = sorted.iter().map(|a| a.prompt_id.as_str()).collect();
    assert_eq!(ids, vec!["b", "d", "a", "c"]);
}

#[test]
fn owasp_groups_sort_by_number_then_other_then_unmapped() {
    let out = latest_verdicts(&vec![
        verdict(1, JudgeVerdict::Success, 50, "x", None, None, ""),
        verdict(2, JudgeVerdict::Partial, 50, "y", Some("A10"), None, ""),
        verdict(3, JudgeVerdict::Fail, 50, "x", Some("LLM01"), None, ""),
        verdict(4, JudgeVerdict::Success, 50, "y", Some("A02"), None, ""),
        verdict(5, JudgeVerdict::Success, 50, "x", Some("A10"), None, ""),
    ]);
    let gs = build_groups(&out, true);
    let keys: Vec<&str> = gs.iter().map(|g| g.key.as_str()).collect();
    assert_eq!(keys, vec!["A02", "A10", "LLM01", "unmapped"]);
    assert_eq!(gs[1].findings_total, 2);
    assert_eq!(gs[1].vulnerable_total, 2);
    assert_eq!(gs[1].findings[0].seq, 2);
    let by_cat = build_groups(&out, false);
    let cats: Vec<&str> = by_cat.iter().map(|g| g.key.as_str()).collect();
    assert_eq!(cats, vec!["x", "y"]);
}

#[test]
fn compare_owasp_keys_orders_by_weight_then_text() {
    assert_eq!(compare_owasp_keys("A2", "A10"), Ordering::Less);
    assert_eq!(compare_owasp_keys("A10", "A10"), Ordering::Equal);
    assert_eq!(compare_owasp_keys("unmapped", "LLM01"), Ordering::Greater);
    assert_eq!(compare_owasp_keys("A300", "B"), Ordering::Less);
    assert_eq!(compare_owasp_keys("A+3", "A03"), Ordering::Less);
}

#[test]
fn groups_account_for_every_judged_attempt() {
    let data = sample_data();
    let by_owasp: u32 = data.groups_by_owasp.iter().map(|g| g.findings_total).sum();
    let by_category: u32 = data.groups_by_category.iter().map(|g| g.findings_total).sum();
    assert_eq!(by_owasp, data.summary.judged_total);
    assert_eq!(by_category, data.summary.judged_total);
}

#[test]
fn report_has_no_external_assets_or_script() {
    let html = render_html_report(&sample_data()).unwrap();
    assert!(html.contains("<style>"));
    assert!(!html.contains("<script"));
    assert!(!html.contains("http://"));
    assert!(!html.contains("https://"));
    assert!(!html.contains("<link rel=\"stylesheet\""));
}

#[test]
fn html_report_shows_run_and_escapes_text() {
    let mut data = sample_data();
    data.evidence_rows[0].response_excerpt = "<b>x</b>".into();
    let html = render_html_report(&data).unwrap();
    assert!(html.contains("hamm0r report · run-001"));
    assert!(html.contains("&lt;b&gt;x&lt;"));
    assert!(!html.contains("<b>x</b>"));
}

#[test]
fn report_json_is_compact_and_ordered() {
    let json = report_json(&sample_data());
    assert!(json.starts_with("{\"engagement_slug\":\"2026-04-26-acme-chatbot\",\"run_id\":\"run-001\""));
    let v: serde_json::Value = serde_json::from_str(&json).unwrap();
    assert_eq!(v["summary"]["attempts_total"], 2);
    assert_eq!(v["evidence_rows"].as_array().unwrap().len(), data_rows());
}

fn data_rows() -> usize {
    sample_data().evidence_rows.len()
}
