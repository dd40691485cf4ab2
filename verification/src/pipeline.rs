//! Judging a run: where its files live, which attempts get judged, and the
//! progress reported along the way. Reading and writing the files, and
//! the judges themselves, stay with the caller.
use vstd::prelude::*;

use crate::install::digits_value;
use crate::text::{chars_of, decimal, digit_char, is_ascii_digit, owned, push_str, str_eq, string_from_chars, strings_view};

verus! {

// ── Paths ────────────────────────────────────────────────────────────────────

/// The run's JSONL file, relative to the engagement directory.
pub fn run_path_for(run_id: &str) -> (r: String)
    ensures
        r@ == "runs/"@ + run_id@ + ".jsonl"@,
{
    let mut r = owned("runs/");
    push_str(&mut r, run_id);
    push_str(&mut r, ".jsonl");
    r
}

/// Where an attempt's response body is saved, relative to the engagement:
/// `responses/<run id>/<seq, four digits at least>.txt`.
pub fn response_body_file(run_id: &str, seq: u32) -> (r: String)
    ensures
        r@ == "responses/"@ + run_id@ + "/"@ + crate::text::decimal_padded(seq as nat, 4) + ".txt"@,
{
    let mut r = owned("responses/");
    push_str(&mut r, run_id);
    push_str(&mut r, "/");
    crate::text::push_padded(&mut r, seq as u64, 4);
    push_str(&mut r, ".txt");
    r
}

/// The run's verdict file, relative to the engagement directory.
pub fn verdict_path_for(run_id: &str) -> (r: String)
    ensures
        r@ == "runs/"@ + run_id@ + ".verdicts.jsonl"@,
{
    let mut r = owned("runs/");
    push_str(&mut r, run_id);
    push_str(&mut r, ".verdicts.jsonl");
    r
}

/// The run's HTML report, relative to the engagement directory.
pub fn report_path_for(run_id: &str) -> (r: String)
    ensures
        r@ == "reports/report-"@ + run_id@ + ".html"@,
{
    let mut r = owned("reports/report-");
    push_str(&mut r, run_id);
    push_str(&mut r, ".html");
    r
}

// ── Result ids ───────────────────────────────────────────────────────────────

/// Index of the last `-` in `s`, if any.
pub open spec fn last_dash(s: Seq<char>) -> Option<int>
    decreases s.len(),
{
    if s.len() == 0 {
        None
    } else if s.last() == '-' {
        Some(s.len() - 1)
    } else {
        last_dash(s.drop_last())
    }
}

/// One or more ASCII digits whose value fits in a `u32`.
pub open spec fn parse_digits(d: Seq<char>) -> Option<u32> {
    if d.len() > 0 && (forall|i: int| 0 <= i < d.len() ==> is_ascii_digit(#[trigger] d[i]))
        && digits_value(d) <= u32::MAX {
        Some(digits_value(d) as u32)
    } else {
        None
    }
}

/// `str::parse::<u32>`: an optional `+`, then one or more ASCII digits
/// whose value fits in a `u32`.
pub open spec fn parse_u32_text(s: Seq<char>) -> Option<u32> {
    parse_digits(
        if s.len() > 0 && s[0] == '+' {
            s.skip(1)
        } else {
            s
        },
    )
}

/// What `parse_result_id` gives: the run id and sequence number around the
/// last `-`, or the error message.
pub open spec fn result_id_spec(id: Seq<char>) -> Result<(Seq<char>, u32), Seq<char>> {
    match last_dash(id) {
        None => Err("invalid result_id: "@ + id),
        Some(k) => match parse_u32_text(id.skip(k + 1)) {
            None => Err("invalid seq in result_id: "@ + id),
            Some(seq) => Ok((id.take(k), seq)),
        },
    }
}

proof fn lemma_last_dash(s: Seq<char>)
    ensures
        match last_dash(s) {
            Some(k) => 0 <= k < s.len() && s[k] == '-' && forall|j: int| k < j < s.len() ==> s[j] != '-',
            None => forall|j: int| 0 <= j < s.len() ==> s[j] != '-',
        },
    decreases s.len(),
{
    if s.len() > 0 && s.last() != '-' {
        lemma_last_dash(s.drop_last());
        assert forall|j: int| 0 <= j < s.len() - 1 implies s[j] == s.drop_last()[j] by {}
    }
}

proof fn lemma_decimal_digits(n: nat)
    ensures
        decimal(n).len() > 0,
        forall|i: int| 0 <= i < decimal(n).len() ==> is_ascii_digit(#[trigger] decimal(n)[i]),
        digits_value(decimal(n)) == n,
    decreases n,
{
    let c = digit_char(n % 10);
    assert(((n % 10 + 48) as u32) as char as u32 == (n % 10 + 48) as u32);
    assert(c as u32 == n % 10 + 48);
    if n < 10 {
        assert(decimal(n).drop_last() =~= Seq::<char>::empty());
        assert(n % 10 == n);
        assert(decimal(n).last() == c);
        assert(digits_value(Seq::<char>::empty()) == 0);
        assert(digits_value(decimal(n)) == digits_value(decimal(n).drop_last()) * 10 + ((decimal(n).last() as u32) - 48) as nat);
    } else {
        lemma_decimal_digits(n / 10);
        assert(n == (n / 10) * 10 + n % 10);
        let d = decimal(n);
        assert(d.drop_last() =~= decimal(n / 10));
        assert(d.last() == c);
        assert(digits_value(d) == digits_value(d.drop_last()) * 10 + ((d.last() as u32) - 48) as nat);
        assert(digits_value(d) == (n / 10) * 10 + n % 10);
        assert forall|i: int| 0 <= i < d.len() implies is_ascii_digit(#[trigger] d[i]) by {
            if i < d.len() - 1 {
                assert(d[i] == decimal(n / 10)[i]);
            }
        }
    }
}

proof fn lemma_last_dash_before(s: Seq<char>, k: int)
    requires
        0 <= k < s.len(),
        s[k] == '-',
        forall|j: int| k < j < s.len() ==> s[j] != '-',
    ensures
        last_dash(s) == Some(k),
    decreases s.len(),
{
    if s.last() != '-' {
        assert forall|j: int| k < j < s.len() - 1 implies s.drop_last()[j] != '-' by {
            assert(s.drop_last()[j] == s[j]);
        }
        lemma_last_dash_before(s.drop_last(), k);
    }
}

/// A run id joined by `-` to a number reads back as that run id and
/// number.
pub proof fn lemma_result_id_round_trip(run_id: Seq<char>, seq: u32)
    ensures
        result_id_spec(run_id + "-"@ + decimal(seq as nat)) == Ok::<(Seq<char>, u32), Seq<char>>((run_id, seq)),
{
    reveal_strlit("-");
    let d = decimal(seq as nat);
    let s = run_id + "-"@ + d;
    lemma_decimal_digits(seq as nat);
    let k = run_id.len() as int;
    assert(s[k] == '-');
    assert forall|j: int| k < j < s.len() implies s[j] != '-' by {
        assert(s[j] == d[j - k - 1]);
        assert(is_ascii_digit(d[j - k - 1]));
    }
    lemma_last_dash_before(s, k);
    assert(s.skip(k + 1) =~= d);
    assert(s.take(k) =~= run_id);
    assert(is_ascii_digit(d[0]));
}

/// Parses the text of a `u32` as `str::parse` does.
pub(crate) fn parse_u32_exec(v: &Vec<char>, from: usize) -> (r: Option<u32>)
    requires
        from <= v@.len(),
    ensures
        r == parse_u32_text(v@.skip(from as int)),
{
    let ghost s = v@.skip(from as int);
    let mut i = from;
    if i < v.len() && v[i] == '+' {
        i += 1;
    }
    let ghost digits = v@.skip(i as int);
    assert(digits =~= (if s.len() > 0 && s[0] == '+' {
        s.skip(1)
    } else {
        s
    }));
    if i == v.len() {
        return None;
    }
    let start = i;
    let mut value: u64 = 0;
    while i < v.len()
        invariant
            start <= i <= v@.len(),
            digits == v@.skip(start as int),
            parse_u32_text(v@.skip(from as int)) == parse_digits(digits),
            value <= u32::MAX,
            forall|k: int| start <= k < i ==> is_ascii_digit(#[trigger] v@[k]),
            value == digits_value(v@.subrange(start as int, i as int)),
        decreases v@.len() - i,
    {
        let c = v[i];
        if !('0' <= c && c <= '9') {
            assert(!is_ascii_digit(digits[i - start]));
            return None;
        }
        assert(v@.subrange(start as int, i + 1).drop_last() =~= v@.subrange(start as int, i as int));
        let next = value * 10 + (c as u32 - 48) as u64;
        if next > 4294967295 {
            proof {
                assert(digits =~= v@.subrange(start as int, v@.len() as int));
                if forall|k: int| 0 <= k < digits.len() ==> is_ascii_digit(#[trigger] digits[k]) {
                    lemma_digits_value_grows(digits, i + 1 - start);
                    assert(digits.take(i + 1 - start) =~= v@.subrange(start as int, i + 1));
                }
            }
            return None;
        }
        value = next;
        i += 1;
    }
    assert(v@.subrange(start as int, v@.len() as int) =~= digits);
    Some(value as u32)
}

/// Along a string of digits, each prefix's value is at most the whole's.
proof fn lemma_digits_value_grows(s: Seq<char>, n: int)
    requires
        0 <= n <= s.len(),
        forall|i: int| 0 <= i < s.len() ==> is_ascii_digit(#[trigger] s[i]),
    ensures
        digits_value(s.take(n)) <= digits_value(s),
    decreases s.len() - n,
{
    if n < s.len() {
        lemma_digits_value_grows(s, n + 1);
        assert(s.take(n + 1).drop_last() =~= s.take(n));
    } else {
        assert(s.take(n) =~= s);
    }
}

/// Splits a result id `"<run_id>-<seq>"` at its last `-`.
pub fn parse_result_id(result_id: &str) -> (r: Result<(String, u32), String>)
    ensures
        match (r, result_id_spec(result_id@)) {
            (Ok((run, seq)), Ok((run_s, seq_s))) => run@ == run_s && seq == seq_s,
            (Err(m), Err(m_s)) => m@ == m_s,
            _ => false,
        },
{
    let v = chars_of(result_id);
    proof {
        lemma_last_dash(v@);
    }
    let mut k = v.len();
    while k > 0 && v[k - 1] != '-'
        invariant
            v@ == result_id@,
            k <= v@.len(),
            forall|j: int| k <= j < v@.len() ==> v@[j] != '-',
        decreases k,
    {
        k -= 1;
    }
    if k == 0 {
        proof {
            assert(last_dash(v@) is None) by {
                if let Some(d) = last_dash(v@) {
                    assert(v@[d] == '-');
                }
            }
        }
        let mut m = owned("invalid result_id: ");
        push_str(&mut m, result_id);
        return Err(m);
    }
    let dash = k - 1;
    proof {
        assert(last_dash(v@) == Some(dash as int)) by {
            if let Some(d) = last_dash(v@) {
                if d < dash {
                    assert(v@[dash as int] == '-');
                }
            }
        }
    }
    match parse_u32_exec(&v, dash + 1) {
        None => {
            let mut m = owned("invalid seq in result_id: ");
            push_str(&mut m, result_id);
            Err(m)
        },
        Some(seq) => {
            let run = string_from_chars(&v, 0, dash);
            assert(v@.subrange(0, dash as int) =~= v@.take(dash as int));
            Ok((run, seq))
        },
    }
}

// ── Judging a run ────────────────────────────────────────────────────────────

/// Prompt metadata a verdict carries.
#[derive(Debug, Clone)]
pub struct PromptMeta {
    pub category: String,
    pub tags: Vec<String>,
    pub owasp_ref: Option<String>,
    pub severity: Option<String>,
    pub prompt_text: String,
}

/// Progress after each attempt of a judge run.
#[derive(Debug, Clone, Copy, PartialEq, Eq, Structural)]
pub struct Progress {
    pub processed: u32,
    pub total: u32,
    pub judged: u32,
    pub skipped_existing: u32,
}

/// What a judge run is asked to do. Directories are as the caller names
/// them; the model path selects the local LLM, its absence the heuristic.
#[derive(Debug, Clone)]
pub struct JudgeRunOptions {
    pub engagement_dir: String,
    pub prompts_dir: String,
    pub run_id: String,
    pub model_path: Option<String>,
    pub analyzer_version: String,
    pub force: bool,
}

/// The counts a finished judge run reports.
#[derive(Debug, Clone, Copy, PartialEq, Eq, Structural)]
pub struct JudgeRunSummary {
    pub processed: u32,
    pub total: u32,
    pub judged: u32,
    pub skipped_existing: u32,
}

/// What judging one attempt is asked to do.
#[derive(Debug, Clone)]
pub struct JudgeOneOptions {
    pub engagement_dir: String,
    pub prompts_dir: String,
    pub run_id: String,
    pub seq: u32,
    pub analyzer_version: String,
    pub force: bool,
}

/// One attempt of a judge run: whether it is judged (or skipped, having a
/// verdict already), and the progress reported after it.
#[derive(Debug, Clone, Copy, PartialEq, Eq, Structural)]
pub struct JudgeStep {
    pub seq: u32,
    pub judge: bool,
    pub progress: Progress,
}

/// The steps of a judge run over `seqs` (the attempts, in run order), given
/// the sequence numbers that already have a verdict. Without `force` an
/// attempt with a verdict is skipped; with the heuristic judge a verdict
/// written earlier in the same run counts too.
pub open spec fn judge_plan(
    seqs: Seq<u32>,
    existing: Seq<u32>,
    force: bool,
    heuristic: bool,
    total: u32,
) -> Seq<JudgeStep>
    decreases seqs.len(),
{
    if seqs.len() == 0 {
        seq![]
    } else {
        let before = judge_plan(seqs.drop_last(), existing, force, heuristic, total);
        let seq = seqs.last();
        let had = existing.contains(seq) || (heuristic && exists|k: int|
            0 <= k < before.len() && before[k].judge && #[trigger] before[k].seq == seq);
        let skip = had && !force;
        let last = if before.len() == 0 {
            Progress { processed: 0, total, judged: 0, skipped_existing: 0 }
        } else {
            before.last().progress
        };
        let progress = Progress {
            processed: (last.processed + 1) as u32,
            total,
            judged: (if skip {
                last.judged as int
            } else {
                last.judged + 1
            }) as u32,
            skipped_existing: (if skip {
                last.skipped_existing + 1
            } else {
                last.skipped_existing as int
            }) as u32,
        };
        before.push(JudgeStep { seq, judge: !skip, progress })
    }
}

/// A judge run accounts for every attempt: it takes one step per attempt,
/// and after the last step every attempt has been processed, each either
/// judged or skipped as already judged.
pub proof fn lemma_judge_plan_counts(seqs: Seq<u32>, existing: Seq<u32>, force: bool, heuristic: bool, total: u32)
    requires
        seqs.len() <= u32::MAX,
    ensures
        judge_plan(seqs, existing, force, heuristic, total).len() == seqs.len(),
        seqs.len() > 0 ==> ({
            let p = judge_plan(seqs, existing, force, heuristic, total).last().progress;
            p.processed == seqs.len() && p.judged + p.skipped_existing == seqs.len()
        }),
    decreases seqs.len(),
{
    if seqs.len() > 0 {
        lemma_judge_plan_counts(seqs.drop_last(), existing, force, heuristic, total);
    }
}

/// Each step of a judge run reports the attempts processed so far (its own
/// position, counting from 1) and the run's total, and names its attempt.
pub proof fn lemma_judge_plan_progress(seqs: Seq<u32>, existing: Seq<u32>, force: bool, heuristic: bool, total: u32)
    requires
        seqs.len() <= u32::MAX,
    ensures
        judge_plan(seqs, existing, force, heuristic, total).len() == seqs.len(),
        forall|k: int|
            0 <= k < seqs.len() ==> {
                let st = #[trigger] judge_plan(seqs, existing, force, heuristic, total)[k];
                &&& st.seq == seqs[k]
                &&& st.progress.processed == k + 1
                &&& st.progress.total == total
            },
    decreases seqs.len(),
{
    if seqs.len() > 0 {
        lemma_judge_plan_progress(seqs.drop_last(), existing, force, heuristic, total);
        let before = judge_plan(seqs.drop_last(), existing, force, heuristic, total);
        let plan = judge_plan(seqs, existing, force, heuristic, total);
        assert forall|k: int| 0 <= k < seqs.len() implies {
            let st = #[trigger] plan[k];
            &&& st.seq == seqs[k]
            &&& st.progress.processed == k + 1
            &&& st.progress.total == total
        } by {
            if k < seqs.len() - 1 {
                assert(plan[k] == before[k]);
                assert(seqs.drop_last()[k] == seqs[k]);
            } else if k > 0 {
                assert(before.last() == before[k - 1]);
            }
        }
    }
}

/// How many of `seqs` already have a verdict in `existing`.
pub open spec fn count_existing(seqs: Seq<u32>, existing: Seq<u32>) -> nat
    decreases seqs.len(),
{
    if seqs.len() == 0 {
        0
    } else {
        count_existing(seqs.drop_last(), existing) + if existing.contains(seqs.last()) {
            1nat
        } else {
            0nat
        }
    }
}

proof fn lemma_judge_plan_skips(seqs: Seq<u32>, existing: Seq<u32>, force: bool, heuristic: bool, total: u32)
    requires
        seqs.len() <= u32::MAX,
        seqs.no_duplicates(),
    ensures
        judge_plan(seqs, existing, force, heuristic, total).len() == seqs.len(),
        forall|k: int| 0 <= k < seqs.len() ==> #[trigger] judge_plan(seqs, existing, force, heuristic, total)[k].seq == seqs[k],
        count_existing(seqs, existing) <= seqs.len(),
        seqs.len() > 0 ==> ({
            let p = judge_plan(seqs, existing, force, heuristic, total).last().progress;
            &&& p.processed == seqs.len()
            &&& p.skipped_existing == (if force { 0 } else { count_existing(seqs, existing) })
            &&& p.judged == seqs.len() - p.skipped_existing
        }),
    decreases seqs.len(),
{
    if seqs.len() > 0 {
        let d = seqs.drop_last();
        assert(d.no_duplicates()) by {
            assert forall|i: int, j: int| 0 <= i < d.len() && 0 <= j < d.len() && i != j implies d[i] != d[j] by {
                assert(d[i] == seqs[i] && d[j] == seqs[j]);
            }
        }
        lemma_judge_plan_skips(d, existing, force, heuristic, total);
        let before = judge_plan(d, existing, force, heuristic, total);
        let x = seqs.last();
        assert forall|k: int| 0 <= k < before.len() implies #[trigger] before[k].seq != x by {
            assert(before[k].seq == d[k]);
            assert(d[k] == seqs[k]);
        }
        let plan = judge_plan(seqs, existing, force, heuristic, total);
        assert forall|k: int| 0 <= k < seqs.len() implies #[trigger] plan[k].seq == seqs[k] by {
            if k < seqs.len() - 1 {
                assert(plan[k] == before[k]);
                assert(before[k].seq == d[k]);
            }
        }
    }
}

/// Over distinct attempts, a judge run skips exactly the attempts that
/// already have a verdict, and none when forced; every other attempt is
/// judged.
pub proof fn lemma_judge_plan_skipped_existing(seqs: Seq<u32>, existing: Seq<u32>, force: bool, heuristic: bool, total: u32)
    requires
        seqs.len() <= u32::MAX,
        seqs.no_duplicates(),
        seqs.len() > 0,
    ensures
        ({
            let p = judge_plan(seqs, existing, force, heuristic, total).last().progress;
            &&& p.skipped_existing == (if force { 0 } else { count_existing(seqs, existing) })
            &&& p.judged + p.skipped_existing == seqs.len()
        }),
{
    lemma_judge_plan_skips(seqs, existing, force, heuristic, total);
}

fn contains_u32(v: &[u32], x: u32) -> (r: bool)
    ensures
        r == v@.contains(x),
{
    let mut i: usize = 0;
    while i < v.len()
        invariant
            i <= v@.len(),
            forall|k: int| 0 <= k < i ==> v@[k] != x,
        decreases v@.len() - i,
    {
        if v[i] == x {
            return true;
        }
        i += 1;
    }
    false
}

fn judged_already(steps: &Vec<JudgeStep>, seq: u32) -> (r: bool)
    ensures
        r == exists|k: int| 0 <= k < steps@.len() && steps@[k].judge && #[trigger] steps@[k].seq == seq,
{
    let mut k: usize = 0;
    while k < steps.len()
        invariant
            k <= steps@.len(),
            forall|j: int| 0 <= j < k ==> !(steps@[j].judge && steps@[j].seq == seq),
        decreases steps@.len() - k,
    {
        if steps[k].judge && steps[k].seq == seq {
            return true;
        }
        k += 1;
    }
    false
}

/// Judges a run's attempts, listed by sequence number: each attempt whose
/// number is in `existing` is skipped unless forced; the result lists each
/// step with its progress, and the totals.
/// The heuristic judge runs when no model path is set.
pub fn judge_run(opts: &JudgeRunOptions, attempt_seqs: &[u32], existing: &[u32]) -> (r: (
    JudgeRunSummary,
    Vec<JudgeStep>,
))
    requires
        attempt_seqs@.len() <= u32::MAX,
    ensures
        r.1@ == judge_plan(
            attempt_seqs@,
            existing@,
            opts.force,
            opts.model_path is None,
            attempt_seqs@.len() as u32,
        ),
        r.0.total == attempt_seqs@.len() as u32,
        r.0.processed == attempt_seqs@.len(),
        r.0.judged + r.0.skipped_existing == attempt_seqs@.len(),
        forall|k: int|
            0 <= k < attempt_seqs@.len() ==> {
                let st = #[trigger] r.1@[k];
                &&& st.seq == attempt_seqs@[k]
                &&& st.progress.processed == k + 1
                &&& st.progress.total == attempt_seqs@.len()
            },
        attempt_seqs@.no_duplicates() ==> r.0.skipped_existing == (if opts.force {
            0
        } else {
            count_existing(attempt_seqs@, existing@)
        }),
        attempt_seqs@.len() > 0 ==> r.0 == (JudgeRunSummary {
            processed: r.1@.last().progress.processed,
            total: r.1@.last().progress.total,
            judged: r.1@.last().progress.judged,
            skipped_existing: r.1@.last().progress.skipped_existing,
        }),
{
    let heuristic = opts.model_path.is_none();
    let total = attempt_seqs.len() as u32;
    let mut steps: Vec<JudgeStep> = Vec::new();
    let mut processed: u32 = 0;
    let mut judged: u32 = 0;
    let mut skipped_existing: u32 = 0;
    let mut i: usize = 0;
    while i < attempt_seqs.len()
        invariant
            attempt_seqs@.len() <= u32::MAX,
            i <= attempt_seqs@.len(),
            heuristic == (opts.model_path is None),
            total == attempt_seqs@.len() as u32,
            steps@ == judge_plan(attempt_seqs@.take(i as int), existing@, opts.force, heuristic, total),
            processed == i,
            judged + skipped_existing == i,
            i > 0 ==> steps@.last().progress == (Progress { processed, total, judged, skipped_existing }),
        decreases attempt_seqs@.len() - i,
    {
        let seq = attempt_seqs[i];
        let ghost before = steps@;
        assert(attempt_seqs@.take(i + 1).drop_last() =~= attempt_seqs@.take(i as int));
        let had = contains_u32(existing, seq) || (heuristic && judged_already(&steps, seq));
        assert(had == (existing@.contains(seq) || (heuristic && exists|k: int|
            0 <= k < before.len() && before[k].judge && #[trigger] before[k].seq == seq)));
        let skip = had && !opts.force;
        processed += 1;
        if skip {
            skipped_existing += 1;
        } else {
            judged += 1;
        }
        steps.push(JudgeStep {
            seq,
            judge: !skip,
            progress: Progress { processed, total, judged, skipped_existing },
        });
        i += 1;
    }
    assert(attempt_seqs@.take(attempt_seqs@.len() as int) =~= attempt_seqs@);
    proof {
        lemma_judge_plan_progress(attempt_seqs@, existing@, opts.force, heuristic, total);
        if attempt_seqs@.no_duplicates() && attempt_seqs@.len() > 0 {
            lemma_judge_plan_skipped_existing(attempt_seqs@, existing@, opts.force, heuristic, total);
        }
    }
    (JudgeRunSummary { processed, total, judged, skipped_existing }, steps)
}

// ── What the judge reads ─────────────────────────────────────────────────────

/// How severe a library prompt's target behaviour is.
#[derive(Debug, Clone, Copy, PartialEq, Eq, Structural)]
pub enum Severity {
    Low,
    Medium,
    High,
    Critical,
}

pub open spec fn severity_text(s: Severity) -> Seq<char> {
    match s {
        Severity::Low => "low"@,
        Severity::Medium => "medium"@,
        Severity::High => "high"@,
        Severity::Critical => "critical"@,
    }
}

/// The label a severity is shown and stored under.
pub fn severity_label(severity: Severity) -> (r: String)
    ensures
        r@ == severity_text(severity),
{
    match severity {
        Severity::Low => owned("low"),
        Severity::Medium => owned("medium"),
        Severity::High => owned("high"),
        Severity::Critical => owned("critical"),
    }
}

/// Everything a judge is given about one attempt.
#[derive(Debug, Clone)]
pub struct JudgeInput {
    pub prompt_text: String,
    pub response_text: String,
    pub category: String,
    pub tags: Vec<String>,
    pub owasp_ref: Option<String>,
    pub severity: Option<String>,
    pub request_failed: bool,
}

/// The response text judged for an attempt: its saved body, else its
/// error, else nothing.
pub fn attempt_response_text(body: Option<String>, error: Option<&str>) -> (r: String)
    ensures
        r@ == (match body {
            Some(b) => b@,
            None => match error {
                Some(e) => e@,
                None => Seq::<char>::empty(),
            },
        }),
{
    match body {
        Some(b) => b,
        None => match error {
            Some(e) => owned(e),
            None => String::new(),
        },
    }
}

fn copy_strings(v: &Vec<String>) -> (r: Vec<String>)
    ensures
        strings_view(r@) == strings_view(v@),
{
    let mut r: Vec<String> = Vec::new();
    let mut i: usize = 0;
    while i < v.len()
        invariant
            i <= v@.len(),
            strings_view(r@) == strings_view(v@).take(i as int),
        decreases v@.len() - i,
    {
        let ghost prev = r@;
        let c = v[i].clone();
        r.push(c);
        assert(strings_view(r@) =~= strings_view(prev).push(c@));
        assert(strings_view(r@) =~= strings_view(v@).take(i + 1));
        i += 1;
    }
    assert(strings_view(v@).take(v@.len() as int) =~= strings_view(v@));
    r
}

fn copy_opt(o: &Option<String>) -> (r: Option<String>)
    ensures
        r == *o,
{
    match o {
        Some(s) => Some(s.clone()),
        None => None,
    }
}

/// The judge's input for an attempt of prompt `prompt_id`: the prompt text
/// the attempt recorded (else the library's), the category, tags, OWASP
/// reference and severity of the library prompt (the category falling
/// back to the prompt id), and whether the request failed (no status, or
/// an error).
pub fn build_judge_input(
    prompt_id: &str,
    attempt_prompt_text: Option<&str>,
    status: u16,
    has_error: bool,
    response_text: String,
    meta: Option<&PromptMeta>,
) -> (r: JudgeInput)
    ensures
        r.prompt_text@ == (match attempt_prompt_text {
            Some(t) => t@,
            None => match meta {
                Some(m) => m.prompt_text@,
                None => Seq::<char>::empty(),
            },
        }),
        r.response_text == response_text,
        r.category@ == (match meta {
            Some(m) => m.category@,
            None => prompt_id@,
        }),
        strings_view(r.tags@) == (match meta {
            Some(m) => strings_view(m.tags@),
            None => Seq::<Seq<char>>::empty(),
        }),
        r.owasp_ref == (match meta {
            Some(m) => m.owasp_ref,
            None => None,
        }),
        r.severity == (match meta {
            Some(m) => m.severity,
            None => None,
        }),
        r.request_failed == (status == 0 || has_error),
{
    let prompt_text = match attempt_prompt_text {
        Some(t) => owned(t),
        None => match meta {
            Some(m) => m.prompt_text.clone(),
            None => String::new(),
        },
    };
    match meta {
        Some(m) => JudgeInput {
            prompt_text,
            response_text,
            category: m.category.clone(),
            tags: copy_strings(&m.tags),
            owasp_ref: copy_opt(&m.owasp_ref),
            severity: copy_opt(&m.severity),
            request_failed: status == 0 || has_error,
        },
        None => {
            let tags: Vec<String> = Vec::new();
            assert(strings_view(tags@) =~= Seq::<Seq<char>>::empty());
            JudgeInput {
                prompt_text,
                response_text,
                category: owned(prompt_id),
                tags,
                owasp_ref: None,
                severity: None,
                request_failed: status == 0 || has_error,
            }
        },
    }
}

// ── The prompt index ─────────────────────────────────────────────────────────

/// A library prompt as the index reads it.
#[derive(Debug, Clone)]
pub struct PromptEntry {
    pub id: String,
    pub tags: Vec<String>,
    pub owasp_ref: Option<String>,
    pub severity: Severity,
    pub text: String,
}

/// A prompt's metadata as plain values: category, tags, OWASP reference,
/// severity label, text.
pub open spec fn meta_view(m: PromptMeta) -> (Seq<char>, Seq<Seq<char>>, Option<Seq<char>>, Option<Seq<char>>, Seq<char>) {
    (
        m.category@,
        strings_view(m.tags@),
        match m.owasp_ref {
            Some(o) => Some(o@),
            None => None,
        },
        match m.severity {
            Some(v) => Some(v@),
            None => None,
        },
        m.prompt_text@,
    )
}

/// The metadata the index keeps for an entry of `category`.
pub open spec fn entry_meta(category: Seq<char>, e: PromptEntry) -> (Seq<char>, Seq<Seq<char>>, Option<Seq<char>>, Option<Seq<char>>, Seq<char>) {
    (
        category,
        strings_view(e.tags@),
        match e.owasp_ref {
            Some(o) => Some(o@),
            None => None,
        },
        Some(severity_text(e.severity)),
        e.text@,
    )
}

/// The index of the library `(category, prompt)` entries: each id once,
/// with the metadata of its first entry, in order of first appearance.
pub open spec fn prompt_index_spec(entries: Seq<(String, PromptEntry)>) -> Seq<
    (Seq<char>, (Seq<char>, Seq<Seq<char>>, Option<Seq<char>>, Option<Seq<char>>, Seq<char>)),
>
    decreases entries.len(),
{
    if entries.len() == 0 {
        seq![]
    } else {
        let before = prompt_index_spec(entries.drop_last());
        let e = entries.last();
        if exists|k: int| 0 <= k < before.len() && #[trigger] before[k].0 == e.1.id@ {
            before
        } else {
            before.push((e.1.id@, entry_meta(e.0@, e.1)))
        }
    }
}

pub open spec fn index_view(v: Seq<(String, PromptMeta)>) -> Seq<
    (Seq<char>, (Seq<char>, Seq<Seq<char>>, Option<Seq<char>>, Option<Seq<char>>, Seq<char>)),
> {
    v.map_values(|p: (String, PromptMeta)| (p.0@, meta_view(p.1)))
}

/// Builds the prompt index from the library's `(category, prompt)`
/// entries; a later entry with an id already indexed is ignored.
pub fn build_prompt_index(entries: &Vec<(String, PromptEntry)>) -> (r: Vec<(String, PromptMeta)>)
    ensures
        index_view(r@) == prompt_index_spec(entries@),
{
    let mut r: Vec<(String, PromptMeta)> = Vec::new();
    let mut i: usize = 0;
    while i < entries.len()
        invariant
            i <= entries@.len(),
            index_view(r@) == prompt_index_spec(entries@.take(i as int)),
        decreases entries@.len() - i,
    {
        let ghost before = index_view(r@);
        assert(entries@.take(i + 1).drop_last() =~= entries@.take(i as int));
        let id = &entries[i].1.id;
        let mut k: usize = 0;
        let mut seen = false;
        while k < r.len()
            invariant
                k <= r@.len(),
                before == index_view(r@),
                seen ==> exists|j: int| 0 <= j < before.len() && #[trigger] before[j].0 == id@,
                !seen ==> forall|j: int| 0 <= j < k ==> before[j].0 != id@,
            decreases r@.len() - k,
        {
            if !seen && str_eq(r[k].0.as_str(), id.as_str()) {
                assert(before[k as int].0 == id@);
                seen = true;
            }
            k += 1;
        }
        if !seen {
            let e = &entries[i];
            let meta = PromptMeta {
                category: e.0.clone(),
                tags: copy_strings(&e.1.tags),
                owasp_ref: copy_opt(&e.1.owasp_ref),
                severity: Some(severity_label(e.1.severity)),
                prompt_text: e.1.text.clone(),
            };
            let ghost entry = (id@, meta_view(meta));
            r.push((id.clone(), meta));
            assert(index_view(r@) =~= before.push(entry));
        }
        i += 1;
    }
    assert(entries@.take(entries@.len() as int) =~= entries@);
    r
}

} // verus!
