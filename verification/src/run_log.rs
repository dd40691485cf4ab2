//! The append-only run log: a header, one record per attempt, then a
//! footer. This module builds the records; writing them is the caller's.
use vstd::prelude::*;

use crate::binds::request_by_id;
use crate::deps::{find_request, Request};
use crate::run::ScenarioStep;
use crate::run_requests::Payload;
use crate::pipeline::response_body_file;
use crate::redact::{log_headers, request_headers_for_log};
use crate::request_log::{estimate_request_body_size, estimate_spec};
use crate::runs::{fold_events, RunEvent, RunStatus};
use crate::template::{copy_pairs, pairs_view, Pairs};
use crate::text::{decimal_padded, dedup, owned, str_eq, strings_view};
use vstd::utf8::encode_utf8;

verus! {

/// The first record of a run.
#[derive(Debug, Clone)]
pub struct RunHeader {
    pub run_id: String,
    /// Name of the engagement directory.
    pub engagement: String,
    pub request_id: String,
    pub started_at: String,
    pub runner_version: String,
    /// The prompt ids the run fires, each once.
    pub prompt_files: Vec<String>,
}

/// What an attempt sent.
#[derive(Debug, Clone)]
pub struct RequestEnvelope {
    pub method: String,
    pub url: String,
    /// The headers as they may be logged (secrets masked).
    pub headers: Pairs,
    pub body_size: u64,
}

/// What an attempt got back.
#[derive(Debug, Clone)]
pub struct ResponseEnvelope {
    /// HTTP status; 0 when no response came.
    pub status: u16,
    pub headers: Pairs,
    pub body_size: u64,
    /// Where the body is saved, relative to the engagement.
    pub body_file: Option<String>,
    pub error: Option<String>,
}

/// When an attempt happened.
#[derive(Debug, Clone)]
pub struct Timing {
    pub sent_at: String,
    pub first_byte_at: Option<String>,
    pub received_at: String,
    pub duration_ms: u64,
}

/// One attempt of a run.
#[derive(Debug, Clone)]
pub struct RunAttempt {
    pub seq: u32,
    pub ts: String,
    pub prompt_id: String,
    pub payload_id: String,
    pub step_id: Option<String>,
    pub iteration: Option<u32>,
    pub session: Option<String>,
    pub prompt_text: Option<String>,
    pub request: RequestEnvelope,
    pub response: ResponseEnvelope,
    pub timing: Timing,
}

/// The last record of a finished run.
#[derive(Debug, Clone)]
pub struct RunFooter {
    pub run_id: String,
    pub finished_at: String,
    pub attempts_total: u32,
    pub attempts_failed: u32,
    pub status: RunStatus,
}

/// A record of the run log.
#[derive(Debug, Clone)]
pub enum RunRecord {
    Header(RunHeader),
    Attempt(RunAttempt),
    Footer(RunFooter),
}

/// Identity of one attempt, apart from its exchange.
#[derive(Debug, Clone)]
pub struct AttemptMeta {
    pub seq: u32,
    pub prompt_id: String,
    pub payload_id: String,
    pub step_id: Option<String>,
    pub iteration: Option<u32>,
    pub session: Option<String>,
    pub prompt_text: Option<String>,
}

/// A response as the HTTP layer hands it over.
#[derive(Debug, Clone)]
pub struct AdapterReply {
    pub status: u16,
    pub response_headers: Pairs,
    pub body_bytes: Vec<u8>,
    pub first_byte_ms: Option<u64>,
    pub duration_ms: u64,
}

/// A failed exchange: the error's text and whether it was a timeout.
#[derive(Debug, Clone)]
pub struct ExchangeFailure {
    pub message: String,
    pub is_timeout: bool,
}

/// The outcome of one exchange, as the attempt record reads it.
#[derive(Debug, Clone)]
pub struct RequestOutcome {
    pub status: u16,
    pub error: Option<String>,
    pub is_timeout: bool,
    pub response_headers: Pairs,
    pub body_bytes: Option<Vec<u8>>,
    pub first_byte_ms: Option<u64>,
    pub duration_ms: u64,
}

pub open spec fn opt_text(o: Option<String>) -> Option<Seq<char>> {
    match o {
        Some(s) => Some(s@),
        None => None,
    }
}

fn copy_opt(o: &Option<String>) -> (r: Option<String>)
    ensures
        opt_text(r) == opt_text(*o),
{
    match o {
        Some(s) => Some(s.clone()),
        None => None,
    }
}

/// `r` is the outcome of exchange `result`: a reply is taken as it is; a
/// failure has status 0, the error's text, no headers or body, and the
/// time measured by the caller.
pub open spec fn outcome_of(r: RequestOutcome, result: Result<AdapterReply, ExchangeFailure>, elapsed_ms: u64) -> bool {
    match result {
        Ok(reply) => {
            &&& r.status == reply.status
            &&& r.error is None
            &&& !r.is_timeout
            &&& pairs_view(r.response_headers@) == pairs_view(reply.response_headers@)
            &&& r.body_bytes == Some(reply.body_bytes)
            &&& r.first_byte_ms == reply.first_byte_ms
            &&& r.duration_ms == reply.duration_ms
        },
        Err(f) => {
            &&& r.status == 0
            &&& opt_text(r.error) == Some(f.message@)
            &&& r.is_timeout == f.is_timeout
            &&& r.response_headers@.len() == 0
            &&& r.body_bytes is None
            &&& r.first_byte_ms is None
            &&& r.duration_ms == elapsed_ms
        },
    }
}

impl RequestOutcome {
    /// The outcome of an exchange (see `outcome_of`).
    pub fn from_adapter(result: Result<AdapterReply, ExchangeFailure>, elapsed_ms: u64) -> (r: RequestOutcome)
        ensures
            outcome_of(r, result, elapsed_ms),
    {
        match result {
            Ok(reply) => RequestOutcome {
                status: reply.status,
                error: None,
                is_timeout: false,
                response_headers: reply.response_headers,
                body_bytes: Some(reply.body_bytes),
                first_byte_ms: reply.first_byte_ms,
                duration_ms: reply.duration_ms,
            },
            Err(f) => RequestOutcome {
                status: 0,
                error: Some(f.message),
                is_timeout: f.is_timeout,
                response_headers: Vec::new(),
                body_bytes: None,
                first_byte_ms: None,
                duration_ms: elapsed_ms,
            },
        }
    }
}

fn contains_text(v: &Vec<String>, s: &String) -> (r: bool)
    ensures
        r == strings_view(v@).contains(s@),
{
    let mut i: usize = 0;
    while i < v.len()
        invariant
            i <= v.len(),
            forall|k: int| 0 <= k < i ==> v@[k]@ != s@,
        decreases v.len() - i,
    {
        if str_eq(v[i].as_str(), s.as_str()) {
            assert(strings_view(v@)[i as int] == s@);
            return true;
        }
        i += 1;
    }
    assert forall|k: int| 0 <= k < strings_view(v@).len() implies strings_view(v@)[k] != s@ by {
        assert(strings_view(v@)[k] == v@[k]@);
    }
    false
}

/// The ids, each kept once where it first occurs.
pub fn dedup_ids(ids: &Vec<String>) -> (r: Vec<String>)
    ensures
        strings_view(r@) == dedup(strings_view(ids@)),
{
    let mut out: Vec<String> = Vec::new();
    let mut i: usize = 0;
    assert(strings_view(ids@).take(0) =~= Seq::<Seq<char>>::empty());
    assert(strings_view(out@) =~= Seq::<Seq<char>>::empty());
    while i < ids.len()
        invariant
            i <= ids.len(),
            strings_view(out@) == dedup(strings_view(ids@).take(i as int)),
        decreases ids.len() - i,
    {
        let ghost t = strings_view(ids@).take(i + 1);
        assert(t.drop_last() =~= strings_view(ids@).take(i as int));
        assert(t.last() == ids@[i as int]@);
        if !contains_text(&out, &ids[i]) {
            let ghost prev = strings_view(out@);
            out.push(ids[i].clone());
            assert(strings_view(out@) =~= prev.push(ids@[i as int]@));
        }
        i += 1;
    }
    assert(strings_view(ids@).take(ids.len() as int) =~= strings_view(ids@));
    out
}

/// `r` is the header record with these fields, the prompt ids each kept
/// once where they first occur.
pub open spec fn header_record_is(
    r: RunRecord,
    run_id: Seq<char>,
    engagement: Seq<char>,
    request_id: Seq<char>,
    runner_version: Seq<char>,
    started_at: Seq<char>,
    prompt_ids: Seq<Seq<char>>,
) -> bool {
    match r {
        RunRecord::Header(h) => {
            &&& h.run_id@ == run_id
            &&& h.engagement@ == engagement
            &&& h.request_id@ == request_id
            &&& h.runner_version@ == runner_version
            &&& h.started_at@ == started_at
            &&& strings_view(h.prompt_files@) == dedup(prompt_ids)
        },
        _ => false,
    }
}

/// The header record of a run.
pub fn run_header_record(
    run_id: &str,
    engagement: &str,
    request_id: &str,
    runner_version: &str,
    started_at: &str,
    prompt_ids: &Vec<String>,
) -> (r: RunRecord)
    ensures
        header_record_is(r, run_id@, engagement@, request_id@, runner_version@, started_at@, strings_view(prompt_ids@)),
{
    RunRecord::Header(RunHeader {
        run_id: owned(run_id),
        engagement: owned(engagement),
        request_id: owned(request_id),
        started_at: owned(started_at),
        runner_version: owned(runner_version),
        prompt_files: dedup_ids(prompt_ids),
    })
}

/// `r` is the footer of a completed run with these counts.
pub open spec fn footer_record_is(r: RunRecord, run_id: Seq<char>, total: u32, failed: u32, finished_at: Seq<char>) -> bool {
    match r {
        RunRecord::Footer(f) => {
            &&& f.run_id@ == run_id
            &&& f.finished_at@ == finished_at
            &&& f.attempts_total == total
            &&& f.attempts_failed == failed
            &&& f.status == RunStatus::Completed
        },
        _ => false,
    }
}

/// The footer record of a completed run.
pub fn run_footer_record(run_id: &str, total: u32, failed: u32, finished_at: &str) -> (r: RunRecord)
    ensures
        footer_record_is(r, run_id@, total, failed, finished_at@),
{
    RunRecord::Footer(RunFooter {
        run_id: owned(run_id),
        finished_at: owned(finished_at),
        attempts_total: total,
        attempts_failed: failed,
        status: RunStatus::Completed,
    })
}

/// The text of an optional prompt, empty when there is none.
pub open spec fn prompt_or_empty(o: Option<String>) -> Seq<char> {
    match o {
        Some(t) => t@,
        None => Seq::<char>::empty(),
    }
}

/// `r` is the record of attempt `meta` of run `run_id`, which sent
/// `request` with `method` and ended in `outcome`. The response body, when
/// there is one, is saved under `response_body_file(run_id, seq)`; the
/// request's headers are logged masked; its body size is the rendered
/// body's byte length.
pub open spec fn attempt_record_is(
    r: RunRecord,
    meta: AttemptMeta,
    outcome: RequestOutcome,
    run_id: Seq<char>,
    method: Seq<char>,
    request: Request,
    sent_at: Seq<char>,
    received_at: Seq<char>,
    env: Seq<(Seq<char>, Seq<char>)>,
) -> bool {
    match r {
        RunRecord::Attempt(a) => {
            &&& a.seq == meta.seq
            &&& a.ts@ == sent_at
            &&& a.prompt_id@ == meta.prompt_id@
            &&& a.payload_id@ == meta.payload_id@
            &&& opt_text(a.step_id) == opt_text(meta.step_id)
            &&& a.iteration == meta.iteration
            &&& opt_text(a.session) == opt_text(meta.session)
            &&& opt_text(a.prompt_text) == opt_text(meta.prompt_text)
            &&& a.request.method@ == method
            &&& a.request.url@ == request.url@
            &&& pairs_view(a.request.headers@) == log_headers(request)
            &&& a.request.body_size == encode_utf8(estimate_spec(request, prompt_or_empty(meta.prompt_text), env)).len()
            &&& a.response.status == outcome.status
            &&& pairs_view(a.response.headers@) == pairs_view(outcome.response_headers@)
            &&& a.response.body_size == match outcome.body_bytes {
                Some(b) => b@.len(),
                None => 0,
            }
            &&& opt_text(a.response.body_file) == match outcome.body_bytes {
                Some(_) => Some("responses/"@ + run_id + "/"@ + decimal_padded(meta.seq as nat, 4) + ".txt"@),
                None => None,
            }
            &&& opt_text(a.response.error) == opt_text(outcome.error)
            &&& a.timing.sent_at@ == sent_at
            &&& opt_text(a.timing.first_byte_at) == match outcome.first_byte_ms {
                Some(_) => Some(received_at),
                None => None,
            }
            &&& a.timing.received_at@ == received_at
            &&& a.timing.duration_ms == outcome.duration_ms
        },
        _ => false,
    }
}

/// The record of one attempt (see `attempt_record_is`).
pub fn attempt_record(
    meta: &AttemptMeta,
    outcome: &RequestOutcome,
    run_id: &str,
    method: &str,
    request: &Request,
    sent_at: &str,
    received_at: &str,
    env: &Pairs,
) -> (r: RunRecord)
    ensures
        attempt_record_is(r, *meta, *outcome, run_id@, method@, *request, sent_at@, received_at@, pairs_view(env@)),
{
    let (body_file, body_size) = match &outcome.body_bytes {
        Some(b) => (Some(response_body_file(run_id, meta.seq)), b.len() as u64),
        None => (None, 0u64),
    };
    let prompt: &str = match &meta.prompt_text {
        Some(t) => t.as_str(),
        None => "",
    };
    proof {
        reveal_strlit("");
    }
    assert(prompt@ == prompt_or_empty(meta.prompt_text));
    let request_body_size = estimate_request_body_size(request, prompt, env);
    assert(request_body_size == encode_utf8(estimate_spec(*request, prompt_or_empty(meta.prompt_text), pairs_view(env@))).len());
    let first_byte_at = match outcome.first_byte_ms {
        Some(_) => Some(owned(received_at)),
        None => None,
    };
    let headers = request_headers_for_log(request);
    let response_headers = copy_pairs(&outcome.response_headers);
    assert(opt_text(body_file) == match outcome.body_bytes {
        Some(_) => Some("responses/"@ + run_id@ + "/"@ + decimal_padded(meta.seq as nat, 4) + ".txt"@),
        None => None::<Seq<char>>,
    });
    RunRecord::Attempt(RunAttempt {
        seq: meta.seq,
        ts: owned(sent_at),
        prompt_id: meta.prompt_id.clone(),
        payload_id: meta.payload_id.clone(),
        step_id: copy_opt(&meta.step_id),
        iteration: meta.iteration,
        session: copy_opt(&meta.session),
        prompt_text: copy_opt(&meta.prompt_text),
        request: RequestEnvelope {
            method: owned(method),
            url: request.url.clone(),
            headers,
            body_size: request_body_size,
        },
        response: ResponseEnvelope {
            status: outcome.status,
            headers: response_headers,
            body_size,
            body_file,
            error: copy_opt(&outcome.error),
        },
        timing: Timing {
            sent_at: owned(sent_at),
            first_byte_at,
            received_at: owned(received_at),
            duration_ms: outcome.duration_ms,
        },
    })
}

/// What a run summary reads of a record: an attempt failed when it got no
/// status or carries an error.
pub open spec fn event_of(r: RunRecord) -> RunEvent {
    match r {
        RunRecord::Header(h) => RunEvent::Header { started_at: h.started_at, scenario_id: None },
        RunRecord::Attempt(a) => RunEvent::Attempt { failed: a.response.status == 0 || a.response.error is Some },
        RunRecord::Footer(f) => RunEvent::Footer {
            attempts_total: f.attempts_total,
            attempts_failed: f.attempts_failed,
            status: f.status,
        },
    }
}

/// The event a run summary reads of a record.
pub fn record_event(r: &RunRecord) -> (e: RunEvent)
    ensures
        e == event_of(*r),
{
    match r {
        RunRecord::Header(h) => RunEvent::Header { started_at: h.started_at.clone(), scenario_id: None },
        RunRecord::Attempt(a) => RunEvent::Attempt { failed: a.response.status == 0 || a.response.error.is_some() },
        RunRecord::Footer(f) => RunEvent::Footer {
            attempts_total: f.attempts_total,
            attempts_failed: f.attempts_failed,
            status: f.status,
        },
    }
}

/// A run log that ends in the footer of a completed run reads back as
/// completed, with the footer's attempt and failure counts, whatever came
/// before it.
pub proof fn lemma_completed_log_summary(
    rs: Seq<RunRecord>,
    run_id: Seq<char>,
    total: u32,
    failed: u32,
    finished_at: Seq<char>,
    is_active: bool,
)
    requires
        rs.len() > 0,
        footer_record_is(rs.last(), run_id, total, failed, finished_at),
    ensures
        ({
            let s = fold_events(rs.map_values(|r: RunRecord| event_of(r)), is_active);
            &&& s.3 == total
            &&& s.4 == failed
            &&& s.5 == "completed"@
        }),
{
    let es = rs.map_values(|r: RunRecord| event_of(r));
    assert(es.last() == event_of(rs.last()));
}

// ── Whole run logs ───────────────────────────────────────────────────────────

/// What the sending side reports of one exchange.
#[derive(Debug, Clone)]
pub struct Exchange {
    pub outcome: RequestOutcome,
    pub sent_at: String,
    pub received_at: String,
}

/// The positions of the attempts that reached the log (`Some`), in order.
pub open spec fn recorded(ex: Seq<Option<Exchange>>) -> Seq<int>
    decreases ex.len(),
{
    if ex.len() == 0 {
        seq![]
    } else if ex.last() is Some {
        recorded(ex.drop_last()).push(ex.len() - 1)
    } else {
        recorded(ex.drop_last())
    }
}

proof fn lemma_recorded(ex: Seq<Option<Exchange>>)
    ensures
        recorded(ex).len() <= ex.len(),
        forall|j: int| 0 <= j < recorded(ex).len() ==> 0 <= #[trigger] recorded(ex)[j] < ex.len() && ex[recorded(ex)[j]] is Some,
        forall|j: int, l: int| 0 <= j < l < recorded(ex).len() ==> #[trigger] recorded(ex)[j] < #[trigger] recorded(ex)[l],
    decreases ex.len(),
{
    if ex.len() > 0 {
        lemma_recorded(ex.drop_last());
    }
}

/// The attempt identity of payload `p` fired as attempt `seq`.
pub open spec fn payload_meta(p: Payload, seq: u32) -> AttemptMeta {
    AttemptMeta {
        seq,
        prompt_id: p.prompt_id,
        payload_id: p.payload_id,
        step_id: None,
        iteration: None,
        session: Some(p.session),
        prompt_text: Some(p.text),
    }
}

pub open spec fn payload_prompt_ids(ps: Seq<Payload>) -> Seq<Seq<char>> {
    ps.map_values(|p: Payload| p.prompt_id@)
}

/// `r` is the log of a run that fired payload `i` as attempt `i + 1` of
/// `request`: the header, then one record for each attempt that reached
/// the log (in payload order), then a footer counting every payload and
/// the attempts that failed before their record was written.
pub open spec fn payload_log_is(
    r: Seq<RunRecord>,
    run_id: Seq<char>,
    engagement: Seq<char>,
    runner_version: Seq<char>,
    started_at: Seq<char>,
    method: Seq<char>,
    request: Request,
    env: Seq<(Seq<char>, Seq<char>)>,
    payloads: Seq<Payload>,
    ex: Seq<Option<Exchange>>,
    finished_at: Seq<char>,
) -> bool {
    let rec = recorded(ex);
    &&& r.len() == rec.len() + 2
    &&& header_record_is(r[0], run_id, engagement, request.id@, runner_version, started_at, payload_prompt_ids(payloads))
    &&& forall|j: int|
        0 <= j < rec.len() ==> attempt_record_is(
            #[trigger] r[j + 1],
            payload_meta(payloads[rec[j]], (rec[j] + 1) as u32),
            ex[rec[j]]->Some_0.outcome,
            run_id,
            method,
            request,
            ex[rec[j]]->Some_0.sent_at@,
            ex[rec[j]]->Some_0.received_at@,
            env,
        )
    &&& footer_record_is(r[r.len() - 1], run_id, ex.len() as u32, (ex.len() - rec.len()) as u32, finished_at)
}

fn payload_ids(payloads: &Vec<Payload>) -> (r: Vec<String>)
    ensures
        strings_view(r@) == payload_prompt_ids(payloads@),
{
    let mut r: Vec<String> = Vec::new();
    let mut i: usize = 0;
    while i < payloads.len()
        invariant
            i <= payloads@.len(),
            strings_view(r@) == payload_prompt_ids(payloads@).take(i as int),
        decreases payloads@.len() - i,
    {
        let ghost prev = strings_view(r@);
        let id = payloads[i].prompt_id.clone();
        r.push(id);
        assert(strings_view(r@) =~= prev.push(payloads@[i as int].prompt_id@));
        assert(payload_prompt_ids(payloads@).take(i + 1) =~= payload_prompt_ids(payloads@).take(i as int).push(
            payloads@[i as int].prompt_id@,
        ));
        i += 1;
    }
    assert(payload_prompt_ids(payloads@).take(payloads@.len() as int) =~= payload_prompt_ids(payloads@));
    r
}

/// The log of a run that fires every payload once against `request`
/// (see `payload_log_is`). `exchanges[i]` is `None` when attempt `i + 1`
/// failed before its record could be written.
pub fn payload_run_log(
    run_id: &str,
    engagement: &str,
    runner_version: &str,
    started_at: &str,
    method: &str,
    request: &Request,
    env: &Pairs,
    payloads: &Vec<Payload>,
    exchanges: &Vec<Option<Exchange>>,
    finished_at: &str,
) -> (r: Vec<RunRecord>)
    requires
        payloads@.len() == exchanges@.len(),
        exchanges@.len() < u32::MAX,
    ensures
        payload_log_is(
            r@,
            run_id@,
            engagement@,
            runner_version@,
            started_at@,
            method@,
            *request,
            pairs_view(env@),
            payloads@,
            exchanges@,
            finished_at@,
        ),
{
    let ghost ex = exchanges@;
    let ids = payload_ids(payloads);
    let mut r: Vec<RunRecord> = Vec::new();
    r.push(run_header_record(run_id, engagement, request.id.as_str(), runner_version, started_at, &ids));
    let mut failed: u32 = 0;
    let mut i: usize = 0;
    assert(ex.take(0) =~= Seq::<Option<Exchange>>::empty());
    while i < exchanges.len()
        invariant
            i <= exchanges@.len(),
            ex == exchanges@,
            payloads@.len() == exchanges@.len(),
            exchanges@.len() < u32::MAX,
            r@.len() == recorded(ex.take(i as int)).len() + 1,
            failed == i - recorded(ex.take(i as int)).len(),
            header_record_is(r@[0], run_id@, engagement@, request.id@, runner_version@, started_at@, payload_prompt_ids(payloads@)),
            forall|j: int|
                0 <= j < recorded(ex.take(i as int)).len() ==> attempt_record_is(
                    #[trigger] r@[j + 1],
                    payload_meta(payloads@[recorded(ex.take(i as int))[j]], (recorded(ex.take(i as int))[j] + 1) as u32),
                    ex[recorded(ex.take(i as int))[j]]->Some_0.outcome,
                    run_id@,
                    method@,
                    *request,
                    ex[recorded(ex.take(i as int))[j]]->Some_0.sent_at@,
                    ex[recorded(ex.take(i as int))[j]]->Some_0.received_at@,
                    pairs_view(env@),
                ),
        decreases exchanges@.len() - i,
    {
        let ghost pre = recorded(ex.take(i as int));
        proof {
            assert(ex.take(i + 1).drop_last() =~= ex.take(i as int));
            lemma_recorded(ex.take(i as int));
        }
        match &exchanges[i] {
            Some(e) => {
                let p = &payloads[i];
                let meta = AttemptMeta {
                    seq: (i + 1) as u32,
                    prompt_id: p.prompt_id.clone(),
                    payload_id: p.payload_id.clone(),
                    step_id: None,
                    iteration: None,
                    session: Some(p.session.clone()),
                    prompt_text: Some(p.text.clone()),
                };
                assert(meta == payload_meta(payloads@[i as int], (i + 1) as u32));
                let rec = attempt_record(
                    &meta,
                    &e.outcome,
                    run_id,
                    method,
                    request,
                    e.sent_at.as_str(),
                    e.received_at.as_str(),
                    env,
                );
                r.push(rec);
                proof {
                    let now = recorded(ex.take(i + 1));
                    assert(now == pre.push(i as int));
                    assert forall|j: int| 0 <= j < now.len() implies attempt_record_is(
                        #[trigger] r@[j + 1],
                        payload_meta(payloads@[now[j]], (now[j] + 1) as u32),
                        ex[now[j]]->Some_0.outcome,
                        run_id@,
                        method@,
                        *request,
                        ex[now[j]]->Some_0.sent_at@,
                        ex[now[j]]->Some_0.received_at@,
                        pairs_view(env@),
                    ) by {
                        if j < pre.len() {
                            assert(now[j] == pre[j]);
                        } else {
                            assert(now[j] == i);
                        }
                    }
                }
            },
            None => {
                failed = failed + 1;
                proof {
                    assert(recorded(ex.take(i + 1)) == pre);
                }
            },
        }
        i += 1;
    }
    assert(ex.take(exchanges@.len() as int) =~= ex);
    proof {
        lemma_recorded(ex);
    }
    let total = exchanges.len() as u32;
    r.push(run_footer_record(run_id, total, failed, finished_at));
    r
}

/// The prompt id a scenario step is logged under.
pub open spec fn step_prompt_id(s: ScenarioStep) -> Seq<char> {
    match s.prompt_id {
        Some(p) => p@,
        None => "custom"@,
    }
}

pub open spec fn step_prompt_ids(steps: Seq<ScenarioStep>) -> Seq<Seq<char>> {
    steps.map_values(|s: ScenarioStep| step_prompt_id(s))
}

/// `m` is the identity of step `s` fired as attempt `seq` in pass
/// `iteration`.
pub open spec fn step_meta_is(m: AttemptMeta, s: ScenarioStep, seq: u32, iteration: u32) -> bool {
    &&& m.seq == seq
    &&& m.prompt_id@ == step_prompt_id(s)
    &&& m.payload_id@ == s.id@
    &&& opt_text(m.step_id) == Some(s.id@)
    &&& m.iteration == Some(iteration)
    &&& opt_text(m.session) == Some(s.session@)
    &&& opt_text(m.prompt_text) == Some(s.prompt_text@)
}

/// The saved request a step names, if the registry has it.
pub open spec fn step_request(s: ScenarioStep, requests: Seq<Request>) -> Option<int> {
    match s.request_id {
        Some(id) => find_request(requests, id@),
        None => None,
    }
}

/// How many exchanges carry an error.
pub open spec fn error_count(ex: Seq<Exchange>) -> nat
    decreases ex.len(),
{
    if ex.len() == 0 {
        0
    } else {
        error_count(ex.drop_last()) + if ex.last().outcome.error is Some {
            1nat
        } else {
            0nat
        }
    }
}

/// `rec` is the record of attempt `k + 1` of a scenario run (see
/// `scenario_log_is`).
pub open spec fn scenario_attempt_is(
    rec: RunRecord,
    k: int,
    run_id: Seq<char>,
    default_method: Seq<char>,
    default_request: Request,
    methods: Seq<String>,
    requests: Seq<Request>,
    env: Seq<(Seq<char>, Seq<char>)>,
    steps: Seq<ScenarioStep>,
    e: Exchange,
) -> bool {
    let s = steps[k % steps.len() as int];
    let (method, request) = match step_request(s, requests) {
        Some(j) => (methods[j]@, requests[j]),
        None => (default_method, default_request),
    };
    exists|m: AttemptMeta|
        #[trigger] step_meta_is(m, s, (k + 1) as u32, (k / steps.len() as int + 1) as u32) && attempt_record_is(
            rec,
            m,
            e.outcome,
            run_id,
            method,
            request,
            e.sent_at@,
            e.received_at@,
            env,
        )
}

/// `r` is the log of a scenario run over `steps`, `passes` times: the
/// header, then attempt `k + 1` for step `k % steps` in pass
/// `k / steps + 1`, sent with the request the step names (the run's own
/// request otherwise), in order; then a footer counting every attempt and
/// those that ended in an error.
pub open spec fn scenario_log_is(
    r: Seq<RunRecord>,
    run_id: Seq<char>,
    engagement: Seq<char>,
    runner_version: Seq<char>,
    started_at: Seq<char>,
    default_method: Seq<char>,
    default_request: Request,
    methods: Seq<String>,
    requests: Seq<Request>,
    env: Seq<(Seq<char>, Seq<char>)>,
    steps: Seq<ScenarioStep>,
    ex: Seq<Exchange>,
    finished_at: Seq<char>,
) -> bool {
    &&& r.len() == ex.len() + 2
    &&& header_record_is(r[0], run_id, engagement, default_request.id@, runner_version, started_at, step_prompt_ids(steps))
    &&& forall|k: int|
        0 <= k < ex.len() ==> #[trigger] scenario_attempt_is(
            r[k + 1],
            k,
            run_id,
            default_method,
            default_request,
            methods,
            requests,
            env,
            steps,
            ex[k],
        )
    &&& footer_record_is(r[r.len() - 1], run_id, ex.len() as u32, error_count(ex) as u32, finished_at)
}

fn step_ids(steps: &Vec<ScenarioStep>) -> (r: Vec<String>)
    ensures
        strings_view(r@) == step_prompt_ids(steps@),
{
    let mut r: Vec<String> = Vec::new();
    let mut i: usize = 0;
    while i < steps.len()
        invariant
            i <= steps@.len(),
            strings_view(r@) == step_prompt_ids(steps@).take(i as int),
        decreases steps@.len() - i,
    {
        let id = match &steps[i].prompt_id {
            Some(p) => p.clone(),
            None => owned("custom"),
        };
        let ghost prev = strings_view(r@);
        assert(id@ == step_prompt_id(steps@[i as int]));
        r.push(id);
        assert(strings_view(r@) =~= prev.push(step_prompt_id(steps@[i as int])));
        assert(step_prompt_ids(steps@).take(i + 1) =~= step_prompt_ids(steps@).take(i as int).push(
            step_prompt_id(steps@[i as int]),
        ));
        i += 1;
    }
    assert(step_prompt_ids(steps@).take(steps@.len() as int) =~= step_prompt_ids(steps@));
    r
}

/// The log of a scenario run (see `scenario_log_is`): `exchanges[k]` is
/// what attempt `k + 1` got back; `methods[j]` is the method of saved
/// request `requests[j]`.
pub fn scenario_run_log(
    run_id: &str,
    engagement: &str,
    runner_version: &str,
    started_at: &str,
    default_method: &str,
    default_request: &Request,
    methods: &Vec<String>,
    requests: &Vec<Request>,
    env: &Pairs,
    steps: &Vec<ScenarioStep>,
    exchanges: &Vec<Exchange>,
    finished_at: &str,
) -> (r: Vec<RunRecord>)
    requires
        methods@.len() == requests@.len(),
        exchanges@.len() < u32::MAX,
        steps@.len() > 0 || exchanges@.len() == 0,
    ensures
        scenario_log_is(
            r@,
            run_id@,
            engagement@,
            runner_version@,
            started_at@,
            default_method@,
            *default_request,
            methods@,
            requests@,
            pairs_view(env@),
            steps@,
            exchanges@,
            finished_at@,
        ),
{
    let ghost ex = exchanges@;
    let ids = step_ids(steps);
    let mut r: Vec<RunRecord> = Vec::new();
    r.push(run_header_record(run_id, engagement, default_request.id.as_str(), runner_version, started_at, &ids));
    let n = steps.len();
    let mut failed: u32 = 0;
    let mut k: usize = 0;
    while k < exchanges.len()
        invariant
            k <= exchanges@.len(),
            ex == exchanges@,
            n == steps@.len(),
            n > 0 || exchanges@.len() == 0,
            methods@.len() == requests@.len(),
            exchanges@.len() < u32::MAX,
            r@.len() == k + 1,
            failed == error_count(ex.take(k as int)),
            failed <= k,
            header_record_is(r@[0], run_id@, engagement@, default_request.id@, runner_version@, started_at@, step_prompt_ids(steps@)),
            forall|q: int|
                0 <= q < k ==> #[trigger] scenario_attempt_is(
                    r@[q + 1],
                    q,
                    run_id@,
                    default_method@,
                    *default_request,
                    methods@,
                    requests@,
                    pairs_view(env@),
                    steps@,
                    ex[q],
                ),
        decreases exchanges@.len() - k,
    {
        let si = k % n;
        let iteration = (k / n + 1) as u32;
        let step = &steps[si];
        let e = &exchanges[k];
        let meta = AttemptMeta {
            seq: (k + 1) as u32,
            prompt_id: match &step.prompt_id {
                Some(p) => p.clone(),
                None => owned("custom"),
            },
            payload_id: step.id.clone(),
            step_id: Some(step.id.clone()),
            iteration: Some(iteration),
            session: Some(step.session.clone()),
            prompt_text: Some(step.prompt_text.clone()),
        };
        let found: Option<usize> = match &step.request_id {
            Some(id) => crate::deps::find_request_exec(requests.as_slice(), id.as_str()),
            None => None,
        };
        let ghost prev = r@;
        match found {
            Some(j) => {
                let rec = attempt_record(
                    &meta,
                    &e.outcome,
                    run_id,
                    methods[j].as_str(),
                    &requests[j],
                    e.sent_at.as_str(),
                    e.received_at.as_str(),
                    env,
                );
                r.push(rec);
            },
            None => {
                let rec = attempt_record(
                    &meta,
                    &e.outcome,
                    run_id,
                    default_method,
                    default_request,
                    e.sent_at.as_str(),
                    e.received_at.as_str(),
                    env,
                );
                r.push(rec);
            },
        }
        proof {
            let s = steps@[k as int % steps@.len() as int];
            assert(step_meta_is(meta, s, (k + 1) as u32, (k as int / steps@.len() as int + 1) as u32));
            assert(scenario_attempt_is(
                r@[k + 1],
                k as int,
                run_id@,
                default_method@,
                *default_request,
                methods@,
                requests@,
                pairs_view(env@),
                steps@,
                ex[k as int],
            ));
            assert forall|q: int| 0 <= q < k + 1 implies #[trigger] scenario_attempt_is(
                r@[q + 1],
                q,
                run_id@,
                default_method@,
                *default_request,
                methods@,
                requests@,
                pairs_view(env@),
                steps@,
                ex[q],
            ) by {
                if q < k {
                    assert(r@[q + 1] == prev[q + 1]);
                }
            }
            assert(ex.take(k + 1).drop_last() =~= ex.take(k as int));
        }
        if e.outcome.error.is_some() {
            failed = failed + 1;
        }
        k += 1;
    }
    assert(ex.take(exchanges@.len() as int) =~= ex);
    let total = exchanges.len() as u32;
    r.push(run_footer_record(run_id, total, failed, finished_at));
    r
}

/// A scenario run's log is a header, the attempts numbered 1..n in order,
/// then a footer whose total is n and whose failed count is at most n.
pub proof fn lemma_scenario_log_shape(
    r: Seq<RunRecord>,
    run_id: Seq<char>,
    engagement: Seq<char>,
    runner_version: Seq<char>,
    started_at: Seq<char>,
    default_method: Seq<char>,
    default_request: Request,
    methods: Seq<String>,
    requests: Seq<Request>,
    env: Seq<(Seq<char>, Seq<char>)>,
    steps: Seq<ScenarioStep>,
    ex: Seq<Exchange>,
    finished_at: Seq<char>,
)
    requires
        ex.len() < u32::MAX,
        scenario_log_is(r, run_id, engagement, runner_version, started_at, default_method, default_request, methods, requests, env, steps, ex, finished_at),
    ensures
        r[0] is Header,
        forall|k: int| 0 <= k < ex.len() ==> (#[trigger] r[k + 1] matches RunRecord::Attempt(a) && a.seq == k + 1),
        r[r.len() - 1] matches RunRecord::Footer(f) && f.attempts_total == r.len() - 2 && f.attempts_failed <= f.attempts_total,
{
    assert forall|k: int| 0 <= k < ex.len() implies (#[trigger] r[k + 1] matches RunRecord::Attempt(a) && a.seq == k + 1) by {
        assert(scenario_attempt_is(r[k + 1], k, run_id, default_method, default_request, methods, requests, env, steps, ex[k]));
    }
    lemma_error_count(ex);
}

proof fn lemma_error_count(ex: Seq<Exchange>)
    ensures
        error_count(ex) <= ex.len(),
    decreases ex.len(),
{
    if ex.len() > 0 {
        lemma_error_count(ex.drop_last());
    }
}

/// A payload run's log is a header, the recorded attempts with increasing
/// numbers between 1 and n, then a footer whose total is n and whose failed
/// count is n less the attempts recorded.
pub proof fn lemma_payload_log_shape(
    r: Seq<RunRecord>,
    run_id: Seq<char>,
    engagement: Seq<char>,
    runner_version: Seq<char>,
    started_at: Seq<char>,
    method: Seq<char>,
    request: Request,
    env: Seq<(Seq<char>, Seq<char>)>,
    payloads: Seq<Payload>,
    ex: Seq<Option<Exchange>>,
    finished_at: Seq<char>,
)
    requires
        ex.len() < u32::MAX,
        payload_log_is(r, run_id, engagement, runner_version, started_at, method, request, env, payloads, ex, finished_at),
    ensures
        r[0] is Header,
        forall|j: int| 0 < j < r.len() - 1 ==> (#[trigger] r[j] matches RunRecord::Attempt(a) && 1 <= a.seq <= ex.len()),
        forall|i: int, j: int|
            0 < i < j < r.len() - 1 ==> (#[trigger] r[i] matches RunRecord::Attempt(a) && #[trigger] r[j] matches RunRecord::Attempt(b) && a.seq < b.seq),
        r[r.len() - 1] matches RunRecord::Footer(f) && f.attempts_total == ex.len() && f.attempts_failed + (r.len() - 2)
            == f.attempts_total,
{
    lemma_recorded(ex);
    let rec = recorded(ex);
    assert forall|j: int| 0 < j < r.len() - 1 implies (#[trigger] r[j] matches RunRecord::Attempt(a) && 1 <= a.seq <= ex.len()) by {
        assert(attempt_record_is(
            r[(j - 1) + 1],
            payload_meta(payloads[rec[j - 1]], (rec[j - 1] + 1) as u32),
            ex[rec[j - 1]]->Some_0.outcome,
            run_id,
            method,
            request,
            ex[rec[j - 1]]->Some_0.sent_at@,
            ex[rec[j - 1]]->Some_0.received_at@,
            env,
        ));
    }
    assert forall|i: int, j: int|
        0 < i < j < r.len() - 1 implies (#[trigger] r[i] matches RunRecord::Attempt(a) && #[trigger] r[j] matches RunRecord::Attempt(b)
            && a.seq < b.seq) by {
        assert(attempt_record_is(
            r[(i - 1) + 1],
            payload_meta(payloads[rec[i - 1]], (rec[i - 1] + 1) as u32),
            ex[rec[i - 1]]->Some_0.outcome,
            run_id,
            method,
            request,
            ex[rec[i - 1]]->Some_0.sent_at@,
            ex[rec[i - 1]]->Some_0.received_at@,
            env,
        ));
        assert(attempt_record_is(
            r[(j - 1) + 1],
            payload_meta(payloads[rec[j - 1]], (rec[j - 1] + 1) as u32),
            ex[rec[j - 1]]->Some_0.outcome,
            run_id,
            method,
            request,
            ex[rec[j - 1]]->Some_0.sent_at@,
            ex[rec[j - 1]]->Some_0.received_at@,
            env,
        ));
        assert(rec[i - 1] < rec[j - 1]);
    }
}

} // verus!
