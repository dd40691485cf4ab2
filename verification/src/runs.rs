//! Run bookkeeping for the application: the next run id, a run's summary
//! and diagnostics from its records, and header lists for the log.
use vstd::prelude::*;

use crate::adapter::env_value;
use crate::binds::{find_pair, lemma_first_key};
use crate::deps::AuthConfig;
use crate::pipeline::{parse_u32_exec, parse_u32_text};
use crate::report_keys::{key_less, key_lt, lemma_key_order};
use crate::template::{pairs_view, Pairs};
use crate::text::{
    chars_of, decimal, decimal_padded, push_decimal, owned, push_padded, push_str, string_from_chars, strings_view, trim, trimmed,
};

verus! {

// ── Run ids ──────────────────────────────────────────────────────────────────

/// The number of a run file named `run-<n>.jsonl`.
pub open spec fn run_file_number(name: Seq<char>) -> Option<u32> {
    if name.len() >= 10 && name.take(4) == "run-"@ && name.skip(name.len() - 6) == ".jsonl"@ {
        parse_u32_text(name.subrange(4, name.len() - 6))
    } else {
        None
    }
}

/// The largest run number among `names` (0 when none).
pub open spec fn max_run_number(names: Seq<Seq<char>>) -> nat
    decreases names.len(),
{
    if names.len() == 0 {
        0
    } else {
        let rest = max_run_number(names.drop_last());
        match run_file_number(names.last()) {
            Some(n) => if n > rest {
                n as nat
            } else {
                rest
            },
            None => rest,
        }
    }
}

fn run_number(name: &str) -> (r: Option<u32>)
    ensures
        r == run_file_number(name@),
{
    let v = chars_of(name);
    let n = v.len();
    proof {
        reveal_strlit("run-");
        reveal_strlit(".jsonl");
    }
    if n < 10 {
        return None;
    }
    if !(v[0] == 'r' && v[1] == 'u' && v[2] == 'n' && v[3] == '-') {
        assert(v@.take(4)[0] != "run-"@[0] || v@.take(4)[1] != "run-"@[1] || v@.take(4)[2] != "run-"@[2] || v@.take(4)[3] != "run-"@[3]);
        return None;
    }
    if !(v[n - 6] == '.' && v[n - 5] == 'j' && v[n - 4] == 's' && v[n - 3] == 'o' && v[n - 2] == 'n' && v[n - 1] == 'l') {
        let ghost t = v@.skip(n - 6);
        assert(t[0] != ".jsonl"@[0] || t[1] != ".jsonl"@[1] || t[2] != ".jsonl"@[2] || t[3] != ".jsonl"@[3] || t[4] != ".jsonl"@[4] || t[5] != ".jsonl"@[5]);
        return None;
    }
    assert(v@.take(4) =~= "run-"@);
    assert(v@.skip(n - 6) =~= ".jsonl"@);
    let middle = string_from_chars(&v, 4, n - 6);
    let m = chars_of(middle.as_str());
    let r = parse_u32_exec(&m, 0);
    assert(m@.skip(0) =~= m@);
    r
}

/// The largest `run-<n>.jsonl` number among `names` (0 when none).
pub fn largest_run_number(names: &Vec<String>) -> (r: u32)
    ensures
        r == max_run_number(strings_view(names@)),
{
    let mut best: u32 = 0;
    let mut i: usize = 0;
    while i < names.len()
        invariant
            i <= names@.len(),
            best == max_run_number(strings_view(names@).take(i as int)),
        decreases names@.len() - i,
    {
        proof {
            assert(strings_view(names@).take(i + 1).drop_last() =~= strings_view(names@).take(i as int));
        }
        match run_number(names[i].as_str()) {
            Some(n) => {
                if n > best {
                    best = n;
                }
            },
            None => {},
        }
        i += 1;
    }
    assert(strings_view(names@).take(names@.len() as int) =~= strings_view(names@));
    best
}

/// The id of the next run of an engagement whose run directory holds the
/// files `names`: one past the largest `run-<n>.jsonl` number, as three
/// digits at least.
pub fn next_run_id(names: &Vec<String>) -> (r: String)
    requires
        max_run_number(strings_view(names@)) < u32::MAX,
    ensures
        r@ == "run-"@ + decimal_padded((max_run_number(strings_view(names@)) + 1) as nat, 3),
{
    let best = largest_run_number(names);
    let mut r = owned("run-");
    push_padded(&mut r, (best + 1) as u64, 3);
    r
}

/// The file a run's startup error is kept in, relative to the engagement.
pub fn run_startup_error_path(run_id: &str) -> (r: String)
    ensures
        r@ == "runs/"@ + run_id@ + ".startup-error.txt"@,
{
    let mut r = owned("runs/");
    push_str(&mut r, run_id);
    push_str(&mut r, ".startup-error.txt");
    r
}

// ── Run summaries ────────────────────────────────────────────────────────────

/// How a finished run ended.
#[derive(Debug, Clone, Copy, PartialEq, Eq, Structural)]
pub enum RunStatus {
    Completed,
    AbortedByUser,
    Crashed,
}

/// What a summary reads of one run record.
#[derive(Debug, Clone)]
pub enum RunEvent {
    Header { started_at: String, scenario_id: Option<String> },
    /// An attempt; `failed` when it got no status or carries an error.
    Attempt { failed: bool },
    Footer { attempts_total: u32, attempts_failed: u32, status: RunStatus },
    LeakDetected,
}

/// The runs list's line for one run.
#[derive(Debug, Clone)]
pub struct RunSummary {
    pub id: String,
    pub status: String,
    pub completed: u32,
    pub total_prompts: u32,
    pub errors: u32,
    pub started_at: String,
    pub scenario_id: Option<String>,
    pub analyzed: bool,
}

pub open spec fn status_text(s: RunStatus) -> Seq<char> {
    match s {
        RunStatus::Completed => "completed"@,
        RunStatus::AbortedByUser => "aborted"@,
        RunStatus::Crashed => "crashed"@,
    }
}

/// The summary state after reading `rs`: started at, scenario, attempts
/// seen, the footer's total (0 without one), errors, status.
pub open spec fn fold_events(rs: Seq<RunEvent>, is_active: bool) -> (
    Seq<char>,
    Option<Seq<char>>,
    nat,
    nat,
    nat,
    Seq<char>,
)
    decreases rs.len(),
{
    if rs.len() == 0 {
        (seq![], None, 0, 0, 0, if is_active { "running"@ } else { "aborted"@ })
    } else {
        let (st, sc, done, total, errs, status) = fold_events(rs.drop_last(), is_active);
        match rs.last() {
            RunEvent::Header { started_at, scenario_id } => (
                started_at@,
                match scenario_id {
                    Some(s) => Some(s@),
                    None => None,
                },
                done,
                total,
                errs,
                status,
            ),
            RunEvent::Attempt { failed } => (st, sc, done + 1, total, if failed { errs + 1 } else { errs }, status),
            RunEvent::Footer { attempts_total, attempts_failed, status: s } => (
                st,
                sc,
                done,
                attempts_total as nat,
                attempts_failed as nat,
                status_text(s),
            ),
            RunEvent::LeakDetected => (st, sc, done, total, errs, status),
        }
    }
}

/// `s` summarizes run `id` from its records.
pub open spec fn summary_of(s: RunSummary, id: Seq<char>, rs: Seq<RunEvent>, is_active: bool, analyzed: bool) -> bool {
    let (st, sc, done, total, errs, status) = fold_events(rs, is_active);
    &&& s.id@ == id
    &&& s.status@ == status
    &&& s.completed == done
    &&& s.total_prompts == (if total == 0 { done } else { total })
    &&& s.errors == errs
    &&& s.started_at@ == st
    &&& (match s.scenario_id {
        Some(x) => sc == Some(x@),
        None => sc is None,
    })
    &&& s.analyzed == analyzed
}

/// Summarizes a run for the runs list. Without a footer the run is
/// `running` while active and `aborted` otherwise, and its total is the
/// attempts written so far.
pub fn summarize_run(run_id: &str, records: &Vec<RunEvent>, is_active: bool, analyzed: bool) -> (s: RunSummary)
    requires
        records@.len() <= u32::MAX,
        forall|i: int|
            0 <= i < records@.len() ==> (#[trigger] records@[i] matches RunEvent::Footer { attempts_failed, .. }
                ==> attempts_failed + records@.len() <= u32::MAX),
    ensures
        summary_of(s, run_id@, records@, is_active, analyzed),
{
    let mut started_at = String::new();
    let mut scenario_id: Option<String> = None;
    let mut completed: u32 = 0;
    let mut total_prompts: u32 = 0;
    let mut errors: u32 = 0;
    let mut status = if is_active {
        owned("running")
    } else {
        owned("aborted")
    };
    let mut i: usize = 0;
    while i < records.len()
        invariant
            i <= records@.len(),
            records@.len() <= u32::MAX,
            errors <= u32::MAX - records@.len() + i,
            forall|k: int|
                0 <= k < records@.len() ==> (#[trigger] records@[k] matches RunEvent::Footer { attempts_failed, .. }
                    ==> attempts_failed + records@.len() <= u32::MAX),
            ({
                let (st, sc, done, total, errs, stat) = fold_events(records@.take(i as int), is_active);
                &&& started_at@ == st
                &&& (match scenario_id {
                    Some(x) => sc == Some(x@),
                    None => sc is None,
                })
                &&& completed == done
                &&& total_prompts == total
                &&& errors == errs
                &&& status@ == stat
            }),
            completed <= i,
        decreases records@.len() - i,
    {
        proof {
            assert(records@.take(i + 1).drop_last() =~= records@.take(i as int));
        }
        match &records[i] {
            RunEvent::Header { started_at: s, scenario_id: sc } => {
                started_at = s.clone();
                scenario_id = match sc {
                    Some(x) => Some(x.clone()),
                    None => None,
                };
            },
            RunEvent::Attempt { failed } => {
                completed = completed + 1;
                if *failed {
                    errors = errors + 1;
                }
            },
            RunEvent::Footer { attempts_total, attempts_failed, status: st } => {
                total_prompts = *attempts_total;
                errors = *attempts_failed;
                status = match st {
                    RunStatus::Completed => owned("completed"),
                    RunStatus::AbortedByUser => owned("aborted"),
                    RunStatus::Crashed => owned("crashed"),
                };
            },
            RunEvent::LeakDetected => {},
        }
        i += 1;
    }
    assert(records@.take(records@.len() as int) =~= records@);
    if total_prompts == 0 {
        total_prompts = completed;
    }
    RunSummary {
        id: owned(run_id),
        status,
        completed,
        total_prompts,
        errors,
        started_at,
        scenario_id,
        analyzed,
    }
}

// ── Header lists ─────────────────────────────────────────────────────────────

/// The entries joined by `, `.
pub open spec fn join_comma(s: Seq<Seq<char>>) -> Seq<char>
    decreases s.len(),
{
    if s.len() == 0 {
        seq![]
    } else if s.len() == 1 {
        s[0]
    } else {
        join_comma(s.drop_last()) + ", "@ + s.last()
    }
}

/// In string order (equal entries side by side).
pub open spec fn sorted_texts(s: Seq<Seq<char>>) -> bool {
    forall|i: int, j: int| 0 <= i < j < s.len() ==> !key_lt(s[j], s[i], false)
}

/// `k=v` for each header.
pub open spec fn header_entries(h: Seq<(Seq<char>, Seq<char>)>) -> Seq<Seq<char>> {
    h.map_values(|p: (Seq<char>, Seq<char>)| p.0 + "="@ + p.1)
}

fn insert_sorted(v: &mut Vec<String>, x: String)
    requires
        sorted_texts(strings_view(old(v)@)),
    ensures
        sorted_texts(strings_view(final(v)@)),
        strings_view(final(v)@).to_multiset() == strings_view(old(v)@).to_multiset().insert(x@),
{
    let ghost before = strings_view(v@);
    let mut p: usize = 0;
    while p < v.len() && key_less(v[p].as_str(), x.as_str(), false)
        invariant
            p <= v@.len(),
            before == strings_view(v@),
            forall|k: int| 0 <= k < p ==> key_lt((#[trigger] before[k]), x@, false),
        decreases v@.len() - p,
    {
        p += 1;
    }
    let ghost xv = x@;
    v.insert(p, x);
    proof {
        let after = strings_view(v@);
        assert(after =~= before.insert(p as int, xv));
        vstd::seq_lib::to_multiset_insert(before, p as int, xv);
        assert forall|i: int, j: int| 0 <= i < j < after.len() implies !key_lt(after[j], after[i], false) by {
            if j < p {
            } else if j == p {
                lemma_key_order(before[i], xv, xv, false);
            } else if i < p {
                assert(after[j] == before[j - 1]);
                lemma_key_order(before[i], xv, before[j - 1], false);
                lemma_key_order(before[j - 1], before[i], xv, false);
            } else if i == p {
                assert(after[j] == before[j - 1]);
                if p < before.len() {
                    lemma_key_order(before[p as int], xv, before[j - 1], false);
                    lemma_key_order(before[j - 1], before[p as int], xv, false);
                    lemma_key_order(before[j - 1], xv, before[p as int], false);
                }
            } else {
                assert(after[i] == before[i - 1]);
                assert(after[j] == before[j - 1]);
            }
        }
    }
}

/// `t` is the header list `h` as the log writes it.
pub open spec fn formats_headers(h: Seq<(Seq<char>, Seq<char>)>, t: Seq<char>) -> bool {
    exists|sorted: Seq<Seq<char>>|
        sorted_texts(sorted) && sorted.to_multiset() == header_entries(h).to_multiset() && t == join_comma(sorted)
}

/// The headers as `k=v` entries in string order, joined by `, `.
pub fn format_headers(headers: &Pairs) -> (r: String)
    ensures
        formats_headers(pairs_view(headers@), r@),
{
    let mut entries: Vec<String> = Vec::new();
    let mut i: usize = 0;
    assert(strings_view(entries@) =~= header_entries(pairs_view(headers@)).take(0));
    while i < headers.len()
        invariant
            i <= headers@.len(),
            sorted_texts(strings_view(entries@)),
            strings_view(entries@).to_multiset() == header_entries(pairs_view(headers@)).take(i as int).to_multiset(),
        decreases headers@.len() - i,
    {
        let mut e = headers[i].0.clone();
        push_str(&mut e, "=");
        push_str(&mut e, headers[i].1.as_str());
        proof {
            let h = header_entries(pairs_view(headers@));
            assert(h.take(i + 1) =~= h.take(i as int).push(e@));
            vstd::seq_lib::to_multiset_build(h.take(i as int), e@);
        }
        insert_sorted(&mut entries, e);
        i += 1;
    }
    assert(header_entries(pairs_view(headers@)).take(headers@.len() as int) =~= header_entries(pairs_view(headers@)));
    let mut r = String::new();
    let mut k: usize = 0;
    while k < entries.len()
        invariant
            k <= entries@.len(),
            r@ == join_comma(strings_view(entries@).take(k as int)),
        decreases entries@.len() - k,
    {
        let ghost s = strings_view(entries@);
        assert(s.take(k + 1).drop_last() =~= s.take(k as int));
        if k > 0 {
            push_str(&mut r, ", ");
        } else {
            assert(s.take(1) =~= seq![s[0]]);
            assert(r@ =~= seq![]);
        }
        push_str(&mut r, entries[k].as_str());
        proof {
            if k == 0 {
                assert(r@ =~= s.take(1)[0]);
            }
        }
        k += 1;
    }
    assert(strings_view(entries@).take(entries@.len() as int) =~= strings_view(entries@));
    r
}

// ── Run diagnostics ──────────────────────────────────────────────────────────

/// The variable is unset, or holds only whitespace.
pub open spec fn env_blank(env: Seq<(Seq<char>, Seq<char>)>, name: Seq<char>) -> bool {
    match env_value(env, name) {
        None => true,
        Some(v) => trimmed(v).len() == 0,
    }
}

/// A note for each variable the auth names that is blank.
pub open spec fn auth_notes(auth: AuthConfig, env: Seq<(Seq<char>, Seq<char>)>) -> Seq<Seq<char>> {
    match auth {
        AuthConfig::Bearer { token_env } => if env_blank(env, token_env@) {
            seq!["Missing env var for bearer auth: "@ + token_env@]
        } else {
            seq![]
        },
        AuthConfig::CustomHeader { value_env, .. } => if env_blank(env, value_env@) {
            seq!["Missing env var for API key/header auth: "@ + value_env@]
        } else {
            seq![]
        },
        AuthConfig::Basic { user_env, password_env } => (if env_blank(env, user_env@) {
            seq!["Missing env var for basic auth user: "@ + user_env@]
        } else {
            seq![]
        }) + (if env_blank(env, password_env@) {
            seq!["Missing env var for basic auth password: "@ + password_env@]
        } else {
            seq![]
        }),
        AuthConfig::NoAuth => seq![],
    }
}

/// The notes of a run's diagnostics: its startup error first, then what
/// its request's auth is missing (or that the request is gone), then a
/// word on a run that wrote nothing.
pub open spec fn diagnostic_notes(
    startup_error: Option<Seq<char>>,
    request_id: Option<Seq<char>>,
    auth: Option<AuthConfig>,
    env: Seq<(Seq<char>, Seq<char>)>,
    attempts: u32,
    has_footer: bool,
) -> Seq<Seq<char>> {
    let base = match request_id {
        Some(id) => match auth {
            Some(a) => auth_notes(a, env),
            None => seq!["Request mapping not found for request_id '"@ + id + "'."@],
        },
        None => seq![],
    };
    let notes = if attempts == 0 && !has_footer {
        base.push("No attempt record written yet. The run likely failed before first response."@)
    } else {
        base
    };
    match startup_error {
        Some(e) => seq![trimmed(e)] + notes,
        None => notes,
    }
}

/// `finished` once the footer is written, `active` while attempts come
/// in, `starting` before the first.
pub open spec fn run_state_text(attempts: u32, has_footer: bool) -> Seq<char> {
    if has_footer {
        "finished"@
    } else if attempts > 0 {
        "active"@
    } else {
        "starting"@
    }
}

fn blank_env(env: &Pairs, name: &str) -> (r: bool)
    ensures
        r == env_blank(pairs_view(env@), name@),
{
    proof {
        lemma_first_key(pairs_view(env@), name@);
    }
    match find_pair(env, name) {
        Some(k) => {
            assert(pairs_view(env@)[k as int].1 == env@[k as int].1@);
            let t = trim(env[k].1.as_str());
            t.as_str().is_empty()
        },
        None => true,
    }
}

fn note(prefix: &str, name: &str) -> (r: String)
    ensures
        r@ == prefix@ + name@,
{
    let mut r = owned(prefix);
    push_str(&mut r, name);
    r
}

fn push_auth_notes(notes: &mut Vec<String>, auth: &AuthConfig, env: &Pairs)
    ensures
        strings_view(final(notes)@) == strings_view(old(notes)@) + auth_notes(*auth, pairs_view(env@)),
{
    let ghost before = strings_view(notes@);
    match auth {
        AuthConfig::Bearer { token_env } => {
            if blank_env(env, token_env.as_str()) {
                notes.push(note("Missing env var for bearer auth: ", token_env.as_str()));
            }
        },
        AuthConfig::CustomHeader { value_env, .. } => {
            if blank_env(env, value_env.as_str()) {
                notes.push(note("Missing env var for API key/header auth: ", value_env.as_str()));
            }
        },
        AuthConfig::Basic { user_env, password_env } => {
            if blank_env(env, user_env.as_str()) {
                notes.push(note("Missing env var for basic auth user: ", user_env.as_str()));
            }
            if blank_env(env, password_env.as_str()) {
                notes.push(note("Missing env var for basic auth password: ", password_env.as_str()));
            }
        },
        AuthConfig::NoAuth => {},
    }
    assert(strings_view(notes@) =~= before + auth_notes(*auth, pairs_view(env@)));
}

pub open spec fn opt_text(o: Option<&str>) -> Option<Seq<char>> {
    match o {
        Some(s) => Some(s@),
        None => None,
    }
}

/// A run's state and diagnostic notes. `request_auth` is the auth of the
/// request the run header names, `None` when no saved request has that
/// id; `env` holds the environment variables.
pub fn run_diagnostics(
    startup_error: Option<&str>,
    request_id: Option<&str>,
    request_auth: Option<&AuthConfig>,
    env: &Pairs,
    attempts: u32,
    has_footer: bool,
) -> (r: (String, Vec<String>))
    ensures
        r.0@ == run_state_text(attempts, has_footer),
        strings_view(r.1@) == diagnostic_notes(
            opt_text(startup_error),
            opt_text(request_id),
            match request_auth {
                Some(a) => Some(*a),
                None => None,
            },
            pairs_view(env@),
            attempts,
            has_footer,
        ),
{
    let mut notes: Vec<String> = Vec::new();
    match startup_error {
        Some(e) => notes.push(trim(e)),
        None => {},
    }
    let ghost head = strings_view(notes@);
    assert(head =~= (match opt_text(startup_error) {
        Some(e) => seq![trimmed(e)],
        None => Seq::<Seq<char>>::empty(),
    }));
    let ghost base = match opt_text(request_id) {
        Some(id) => match request_auth {
            Some(a) => auth_notes(*a, pairs_view(env@)),
            None => seq!["Request mapping not found for request_id '"@ + id + "'."@],
        },
        None => Seq::<Seq<char>>::empty(),
    };
    match request_id {
        Some(id) => match request_auth {
            Some(a) => push_auth_notes(&mut notes, a, env),
            None => {
                let mut m = owned("Request mapping not found for request_id '");
                push_str(&mut m, id);
                push_str(&mut m, "'.");
                notes.push(m);
            },
        },
        None => {},
    }
    assert(strings_view(notes@) =~= head + base);
    let ghost mid = strings_view(notes@);
    if attempts == 0 && !has_footer {
        notes.push(owned("No attempt record written yet. The run likely failed before first response."));
        assert(strings_view(notes@) =~= mid.push("No attempt record written yet. The run likely failed before first response."@));
    }
    let ghost want = diagnostic_notes(
        opt_text(startup_error),
        opt_text(request_id),
        match request_auth {
            Some(a) => Some(*a),
            None => None,
        },
        pairs_view(env@),
        attempts,
        has_footer,
    );
    assert(strings_view(notes@) =~= want);
    let state = if has_footer {
        owned("finished")
    } else if attempts > 0 {
        owned("active")
    } else {
        owned("starting")
    };
    (state, notes)
}

/// The message logged for a finished attempt, given its header lists as
/// formatted: one `key=value` line per field, then the error and the
/// bodies when present.
pub open spec fn attempt_log_text(a: crate::run::AttemptLog, request_headers: Seq<char>, response_headers: Seq<char>) -> Seq<char> {
    "Attempt completed seq="@ + decimal(a.seq as nat) + "\nrequest.method="@ + a.request_method@
        + "\nrequest.url="@ + a.request_url@ + "\nrequest.headers="@ + request_headers
        + "\nrequest.body_size="@ + decimal(a.request_body_size as nat) + "\nresponse.status="@ + decimal(
        a.response_status as nat,
    ) + "\nresponse.headers="@ + response_headers + "\nresponse.body_size="@ + decimal(
        a.response_body_size as nat,
    ) + "\nduration_ms="@ + decimal(a.duration_ms as nat) + match a.error {
        Some(e) => "\nerror="@ + e@,
        None => seq![],
    } + match a.request_body {
        Some(b) => "\nrequest.body:\n"@ + b@,
        None => seq![],
    } + match a.response_body {
        Some(b) => "\nresponse.body:\n"@ + b@,
        None => seq![],
    }
}

/// The message logged for a finished attempt.
pub fn attempt_log_message(a: &crate::run::AttemptLog) -> (r: String)
    ensures
        exists|rq: Seq<char>, rs: Seq<char>|
            formats_headers(pairs_view(a.request_headers@), rq) && formats_headers(pairs_view(a.response_headers@), rs)
                && r@ == attempt_log_text(*a, rq, rs),
{
    let rq = format_headers(&a.request_headers);
    let rs = format_headers(&a.response_headers);
    let mut m = owned("Attempt completed seq=");
    push_decimal(&mut m, a.seq as u64);
    push_str(&mut m, "\nrequest.method=");
    push_str(&mut m, a.request_method.as_str());
    push_str(&mut m, "\nrequest.url=");
    push_str(&mut m, a.request_url.as_str());
    push_str(&mut m, "\nrequest.headers=");
    push_str(&mut m, rq.as_str());
    push_str(&mut m, "\nrequest.body_size=");
    push_decimal(&mut m, a.request_body_size);
    push_str(&mut m, "\nresponse.status=");
    push_decimal(&mut m, a.response_status as u64);
    push_str(&mut m, "\nresponse.headers=");
    push_str(&mut m, rs.as_str());
    push_str(&mut m, "\nresponse.body_size=");
    push_decimal(&mut m, a.response_body_size);
    push_str(&mut m, "\nduration_ms=");
    push_decimal(&mut m, a.duration_ms);
    let ghost head = m@;
    match &a.error {
        Some(e) => {
            push_str(&mut m, "\nerror=");
            push_str(&mut m, e.as_str());
        },
        None => {},
    }
    let ghost with_error = m@;
    match &a.request_body {
        Some(b) => {
            push_str(&mut m, "\nrequest.body:\n");
            push_str(&mut m, b.as_str());
        },
        None => {},
    }
    let ghost with_request = m@;
    match &a.response_body {
        Some(b) => {
            push_str(&mut m, "\nresponse.body:\n");
            push_str(&mut m, b.as_str());
        },
        None => {},
    }
    assert(m@ =~= attempt_log_text(*a, rq@, rs@));
    m
}

} // verus!
