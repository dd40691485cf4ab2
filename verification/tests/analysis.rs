use hamm0r::analysis::{collect_analysis_events, judge_run_args, subprocess_outcome, AnalysisEvent};
use hamm0r::pipeline::JudgeRunSummary;

#[test]
fn judge_run_arguments() {
    let args = judge_run_args("/e", "/p", "run-001", "/m.gguf", None, true);
    assert_eq!(
        args,
        vec!["judge-run", "--engagement-dir", "/e", "--prompts-dir", "/p", "--run", "run-001", "--model", "/m.gguf", "--force"]
    );
    let args = judge_run_args("/e", "/p", "r", "/m", Some(("http://o", "qwen")), false);
    assert_eq!(&args[7..], &["--ollama-url", "http://o", "--ollama-model", "qwen"]);
}

#[test]
fn events_fold_into_summary_and_error() {
    let events = vec![
        AnalysisEvent::Progress { processed: 1, total: 2, judged: 1, skipped_existing: 0 },
        AnalysisEvent::Error { message: Some("boom".into()) },
        AnalysisEvent::Other,
        AnalysisEvent::Result { processed: 2, total: 2, judged: 1, skipped_existing: 1 },
    ];
    let (summary, error) = collect_analysis_events(&events);
    assert_eq!(summary, Some(JudgeRunSummary { processed: 2, total: 2, judged: 1, skipped_existing: 1 }));
    assert_eq!(error.as_deref(), Some("boom"));
}

#[test]
fn exit_outcomes() {
    let s = JudgeRunSummary { processed: 1, total: 1, judged: 1, skipped_existing: 0 };
    assert_eq!(subprocess_outcome(true, true, Some(0), Some(s), None, ""), Err("analysis cancelled by user".into()));
    assert_eq!(
        subprocess_outcome(false, false, Some(3), None, None, "  trace \n"),
        Err("analyz0r exited with code 3: trace".into())
    );
    assert_eq!(
        subprocess_outcome(false, false, None, None, None, " "),
        Err("analyz0r exited with code -1: no diagnostic output".into())
    );
    assert_eq!(
        subprocess_outcome(false, false, Some(-2147483648), None, Some("e".into()), ""),
        Err("analyz0r exited with code -2147483648: e".into())
    );
    assert_eq!(subprocess_outcome(false, true, Some(0), Some(s), None, ""), Ok(s));
    assert_eq!(
        subprocess_outcome(false, true, Some(0), None, None, ""),
        Err("analyz0r finished without emitting a result event".into())
    );
}
