//! Running the judge as a separate program: the command line it is given,
//! what its output lines add up to, and how its exit is reported.
use vstd::prelude::*;

use crate::pipeline::JudgeRunSummary;
use crate::text::{decimal, owned, push_decimal, push_str, strings_view, trim, trimmed};

verus! {

/// The arguments of a `judge-run` of the judge program. A local Ollama
/// (its URL and model) replaces the model file when both are given.
pub open spec fn judge_run_args_spec(
    engagement_dir: Seq<char>,
    prompts_dir: Seq<char>,
    run_id: Seq<char>,
    model_path: Seq<char>,
    ollama: Option<(Seq<char>, Seq<char>)>,
    force: bool,
) -> Seq<Seq<char>> {
    seq!["judge-run"@, "--engagement-dir"@, engagement_dir, "--prompts-dir"@, prompts_dir, "--run"@, run_id]
        + match ollama {
        Some((url, model)) => seq!["--ollama-url"@, url, "--ollama-model"@, model],
        None => seq!["--model"@, model_path],
    } + if force {
        seq!["--force"@]
    } else {
        seq![]
    }
}

/// The arguments for judging run `run_id` with the judge program.
pub fn judge_run_args(
    engagement_dir: &str,
    prompts_dir: &str,
    run_id: &str,
    model_path: &str,
    ollama: Option<(&str, &str)>,
    force: bool,
) -> (r: Vec<String>)
    ensures
        strings_view(r@) == judge_run_args_spec(
            engagement_dir@,
            prompts_dir@,
            run_id@,
            model_path@,
            match ollama {
                Some((u, m)) => Some((u@, m@)),
                None => None,
            },
            force,
        ),
{
    let mut r: Vec<String> = Vec::new();
    r.push(owned("judge-run"));
    r.push(owned("--engagement-dir"));
    r.push(owned(engagement_dir));
    r.push(owned("--prompts-dir"));
    r.push(owned(prompts_dir));
    r.push(owned("--run"));
    r.push(owned(run_id));
    match ollama {
        Some((url, model)) => {
            r.push(owned("--ollama-url"));
            r.push(owned(url));
            r.push(owned("--ollama-model"));
            r.push(owned(model));
        },
        None => {
            r.push(owned("--model"));
            r.push(owned(model_path));
        },
    }
    if force {
        r.push(owned("--force"));
    }
    let ghost want = judge_run_args_spec(
        engagement_dir@,
        prompts_dir@,
        run_id@,
        model_path@,
        match ollama {
            Some((u, m)) => Some((u@, m@)),
            None => None,
        },
        force,
    );
    assert(strings_view(r@) =~= want);
    r
}

/// One line of the judge program's output, as read.
#[derive(Debug, Clone)]
pub enum AnalysisEvent {
    Progress { processed: u32, total: u32, judged: u32, skipped_existing: u32 },
    Result { processed: u32, total: u32, judged: u32, skipped_existing: u32 },
    /// An error event, with its message if it has one.
    Error { message: Option<String> },
    /// A line that is not an event.
    Other,
}

/// The summary and error message the output lines leave: the last result
/// event's counts, and the last error event's message (an error event
/// without a message clears it).
pub open spec fn fold_events(es: Seq<AnalysisEvent>) -> (Option<(u32, u32, u32, u32)>, Option<Seq<char>>)
    decreases es.len(),
{
    if es.len() == 0 {
        (None, None)
    } else {
        let (summary, error) = fold_events(es.drop_last());
        match es.last() {
            AnalysisEvent::Result { processed, total, judged, skipped_existing } => (
                Some((processed, total, judged, skipped_existing)),
                error,
            ),
            AnalysisEvent::Error { message } => (
                summary,
                match message {
                    Some(m) => Some(m@),
                    None => None,
                },
            ),
            _ => (summary, error),
        }
    }
}

pub open spec fn summary_view(s: JudgeRunSummary) -> (u32, u32, u32, u32) {
    (s.processed, s.total, s.judged, s.skipped_existing)
}

/// Reads the judge program's output lines into its summary and error.
pub fn collect_analysis_events(events: &Vec<AnalysisEvent>) -> (r: (Option<JudgeRunSummary>, Option<String>))
    ensures
        (match r.0 {
            Some(s) => Some(summary_view(s)),
            None => None,
        }, match r.1 {
            Some(m) => Some(m@),
            None => None,
        }) == fold_events(events@),
{
    let mut summary: Option<JudgeRunSummary> = None;
    let mut error: Option<String> = None;
    let mut i: usize = 0;
    while i < events.len()
        invariant
            i <= events@.len(),
            (match summary {
                Some(s) => Some(summary_view(s)),
                None => None,
            }, match error {
                Some(m) => Some(m@),
                None => None,
            }) == fold_events(events@.take(i as int)),
        decreases events@.len() - i,
    {
        assert(events@.take(i + 1).drop_last() =~= events@.take(i as int));
        match &events[i] {
            AnalysisEvent::Result { processed, total, judged, skipped_existing } => {
                summary = Some(
                    JudgeRunSummary {
                        processed: *processed,
                        total: *total,
                        judged: *judged,
                        skipped_existing: *skipped_existing,
                    },
                );
            },
            AnalysisEvent::Error { message } => {
                error = match message {
                    Some(m) => Some(m.clone()),
                    None => None,
                };
            },
            _ => {},
        }
        i += 1;
    }
    assert(events@.take(events@.len() as int) =~= events@);
    (summary, error)
}

/// An exit code as written: decimal, with a sign when negative.
pub open spec fn code_text(code: int) -> Seq<char> {
    if code < 0 {
        seq!['-'] + decimal((-code) as nat)
    } else {
        decimal(code as nat)
    }
}

/// How a judge program run ends: cancelled, failed with a code and the
/// best diagnostic at hand (its error event, else its trimmed error output,
/// else a placeholder), finished without a result, or its summary.
pub open spec fn outcome_spec(
    cancelled: bool,
    success: bool,
    code: Option<i32>,
    summary: Option<(u32, u32, u32, u32)>,
    error: Option<Seq<char>>,
    stderr: Seq<char>,
) -> Result<(u32, u32, u32, u32), Seq<char>> {
    if cancelled {
        Err("analysis cancelled by user"@)
    } else if !success {
        Err(
            "analyz0r exited with code "@ + code_text(
                match code {
                    Some(c) => c as int,
                    None => -1,
                },
            ) + ": "@ + match error {
                Some(m) => m,
                None => if trimmed(stderr).len() > 0 {
                    trimmed(stderr)
                } else {
                    "no diagnostic output"@
                },
            },
        )
    } else {
        match summary {
            Some(s) => Ok(s),
            None => Err("analyz0r finished without emitting a result event"@),
        }
    }
}

fn push_code(r: &mut String, code: i32)
    ensures
        final(r)@ == old(r)@ + code_text(code as int),
{
    if code < 0 {
        push_str(r, "-");
        let magnitude: u64 = if code == i32::MIN {
            2147483648
        } else {
            (-code) as u64
        };
        assert(magnitude as int == -(code as int));
        proof {
            reveal_strlit("-");
            assert(((-(code as int)) as nat) == magnitude as nat);
        }
        push_decimal(r, magnitude);
        assert(r@ =~= old(r)@ + code_text(code as int));
    } else {
        push_decimal(r, code as u64);
    }
}

/// The result of a judge program run.
pub fn subprocess_outcome(
    cancelled: bool,
    success: bool,
    code: Option<i32>,
    summary: Option<JudgeRunSummary>,
    error: Option<String>,
    stderr: &str,
) -> (r: Result<JudgeRunSummary, String>)
    ensures
        match (r, outcome_spec(
            cancelled,
            success,
            code,
            match summary {
                Some(s) => Some(summary_view(s)),
                None => None,
            },
            match error {
                Some(m) => Some(m@),
                None => None,
            },
            stderr@,
        )) {
            (Ok(s), Ok(t)) => summary_view(s) == t,
            (Err(m), Err(t)) => m@ == t,
            _ => false,
        },
{
    if cancelled {
        return Err(owned("analysis cancelled by user"));
    }
    if !success {
        let mut m = owned("analyz0r exited with code ");
        let c: i32 = match code {
            Some(c) => c,
            None => -1,
        };
        push_code(&mut m, c);
        push_str(&mut m, ": ");
        match error {
            Some(e) => push_str(&mut m, e.as_str()),
            None => {
                let t = trim(stderr);
                if t.as_str().is_empty() {
                    push_str(&mut m, "no diagnostic output");
                } else {
                    push_str(&mut m, t.as_str());
                }
            },
        }
        return Err(m);
    }
    match summary {
        Some(s) => Ok(s),
        None => Err(owned("analyz0r finished without emitting a result event")),
    }
}

} // verus!
