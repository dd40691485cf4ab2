//! What a run writes about its attempts: timestamps and logged bodies.
use vstd::prelude::*;

use crate::text::{decimal, decimal_padded, owned, push_decimal, push_padded, push_str};
use crate::template::Pairs;
use crate::wrappers::{lossy_utf8, unix_time_secs, utf8_lossy};

verus! {

// ── Logged bodies ────────────────────────────────────────────────────────────

/// Bodies above this many bytes are not logged.
pub const BODY_LOG_LIMIT: usize = 512000;

/// `len / 1024` rounded to one decimal place, in tenths, ties to even, as
/// `{:.1}` rounds the exact quotient.
pub open spec fn kib_tenths(len: nat) -> nat {
    let q = (len * 10) / 1024;
    let rem = (len * 10) % 1024;
    if rem > 512 || (rem == 512 && q % 2 == 1) {
        q + 1
    } else {
        q
    }
}

/// `tenths / 10` with one decimal: `12.3`.
pub open spec fn one_decimal(tenths: nat) -> Seq<char> {
    decimal(tenths / 10) + "."@ + decimal(tenths % 10)
}

/// The line logged in place of a body too large to log.
pub open spec fn too_large_message(len: nat) -> Seq<char> {
    "Won't log the payload since the size is "@ + one_decimal(kib_tenths(len)) + " KB"@
}

/// Appends `tenths / 10` with one decimal place.
fn push_tenths(r: &mut String, tenths: u64)
    ensures
        final(r)@ == old(r)@ + one_decimal(tenths as nat),
{
    push_decimal(r, tenths / 10);
    push_str(r, ".");
    push_decimal(r, tenths % 10);
}

/// `len` bytes in KiB, in tenths, rounded as `{:.1}` rounds.
fn tenths_of_kib(len: usize) -> (t: u64)
    ensures
        t as nat == kib_tenths(len as nat),
{
    let whole = (len / 1024) as u64;
    let part = (len % 1024) as u64;
    let q = whole * 10 + part * 10 / 1024;
    let rem = part * 10 % 1024;
    proof {
        let l = len as nat;
        assert(l == 1024 * (l / 1024) + l % 1024) by (nonlinear_arith);
        assert(l * 10 == 10240 * (l / 1024) + (l % 1024) * 10) by (nonlinear_arith)
            requires
                l == 1024 * (l / 1024) + l % 1024,
        ;
        assert((l * 10) / 1024 == 10 * (l / 1024) + ((l % 1024) * 10) / 1024) by (nonlinear_arith)
            requires
                l * 10 == 10240 * (l / 1024) + (l % 1024) * 10,
        ;
        assert((l * 10) % 1024 == ((l % 1024) * 10) % 1024) by (nonlinear_arith)
            requires
                l * 10 == 10240 * (l / 1024) + (l % 1024) * 10,
        ;
    }
    if rem > 512 || (rem == 512 && q % 2 == 1) {
        q + 1
    } else {
        q
    }
}

/// A response body as it is logged: the text (invalid UTF-8 replaced by
/// U+FFFD), or, above 500 KiB, a line giving its size instead.
pub fn limit_body_for_log(body: Vec<u8>) -> (r: String)
    ensures
        body@.len() > BODY_LOG_LIMIT ==> r@ == too_large_message(body@.len()),
        body@.len() <= BODY_LOG_LIMIT ==> r@ == lossy_utf8(body@),
{
    if body.len() > BODY_LOG_LIMIT {
        let mut r = owned("Won't log the payload since the size is ");
        push_tenths(&mut r, tenths_of_kib(body.len()));
        push_str(&mut r, " KB");
        return r;
    }
    utf8_lossy(body.as_slice())
}

/// A response body for the log: nothing when body logging is off or there
/// is no body.
pub fn render_response_body_for_log(body: Option<&Vec<u8>>, body_logging_enabled: bool) -> (r: Option<String>)
    ensures
        !body_logging_enabled ==> r is None,
        body_logging_enabled ==> match body {
            None => r is None,
            Some(b) => r matches Some(s) && (b@.len() > BODY_LOG_LIMIT ==> s@ == too_large_message(
                b@.len(),
            )) && (b@.len() <= BODY_LOG_LIMIT ==> s@ == lossy_utf8(b@)),
        },
{
    if !body_logging_enabled {
        return None;
    }
    match body {
        None => None,
        Some(b) => Some(limit_body_for_log(copy_bytes(b))),
    }
}

fn copy_bytes(b: &Vec<u8>) -> (r: Vec<u8>)
    ensures
        r@ == b@,
{
    let mut r: Vec<u8> = Vec::new();
    let mut i: usize = 0;
    while i < b.len()
        invariant
            i <= b@.len(),
            r@ == b@.take(i as int),
        decreases b@.len() - i,
    {
        r.push(b[i]);
        assert(b@.take(i + 1) =~= b@.take(i as int).push(b@[i as int]));
        i += 1;
    }
    assert(b@.take(b@.len() as int) =~= b@);
    r
}

// ── Dates ────────────────────────────────────────────────────────────────────

/// Gregorian leap years.
pub open spec fn leap(y: int) -> bool {
    (y % 4 == 0 && y % 100 != 0) || y % 400 == 0
}

pub open spec fn days_in_year(y: int) -> int {
    if leap(y) {
        366
    } else {
        365
    }
}

pub open spec fn days_in_month(y: int, m: int) -> int {
    if m == 2 {
        if leap(y) {
            29
        } else {
            28
        }
    } else if m == 4 || m == 6 || m == 9 || m == 11 {
        30
    } else {
        31
    }
}

/// Days from 1970-01-01 to January 1st of year `y`.
pub open spec fn days_before_year(y: int) -> int
    decreases y - 1970,
{
    if y <= 1970 {
        0
    } else {
        days_before_year(y - 1) + days_in_year(y - 1)
    }
}

/// Days from January 1st to the first of month `m` in year `y`.
pub open spec fn days_before_month(y: int, m: int) -> int
    decreases m,
{
    if m <= 1 {
        0
    } else {
        days_before_month(y, m - 1) + days_in_month(y, m - 1)
    }
}

/// `(year, month, day)` is the civil date `days` days after 1970-01-01.
pub open spec fn is_date_of(days: int, ymd: (int, int, int)) -> bool {
    let (y, m, d) = ymd;
    &&& y >= 1970
    &&& 1 <= m <= 12
    &&& 1 <= d <= days_in_month(y, m)
    &&& days == days_before_year(y) + days_before_month(y, m) + d - 1
}

/// Whether `y` is a Gregorian leap year.
pub fn is_leap(y: u64) -> (r: bool)
    ensures
        r == leap(y as int),
{
    (y % 4 == 0 && y % 100 != 0) || y % 400 == 0
}

fn month_length(leap_year: bool, m: u64) -> (r: u64)
    requires
        1 <= m <= 12,
    ensures
        forall|y: int| leap(y) == leap_year ==> r == days_in_month(y, m as int),
{
    if m == 2 {
        if leap_year {
            29
        } else {
            28
        }
    } else if m == 4 || m == 6 || m == 9 || m == 11 {
        30
    } else {
        31
    }
}

proof fn lemma_days_before_month_year(y: int, m: int)
    requires
        1 <= m <= 13,
    ensures
        days_before_month(y, m) <= days_in_year(y),
        m == 13 ==> days_before_month(y, m) == days_in_year(y),
    decreases m,
{
    if m > 1 {
        lemma_days_before_month_year(y, m - 1);
        if m < 13 {
            assert(days_before_month(y, 13) == days_in_year(y)) by {
                reveal_with_fuel(days_before_month, 13);
            }
            lemma_month_prefix_mono(y, m, 13);
        } else {
            reveal_with_fuel(days_before_month, 13);
        }
    }
}

proof fn lemma_month_prefix_mono(y: int, a: int, b: int)
    requires
        1 <= a <= b,
    ensures
        days_before_month(y, a) <= days_before_month(y, b),
    decreases b - a,
{
    if a < b {
        lemma_month_prefix_mono(y, a, b - 1);
    }
}

proof fn lemma_year_prefix_mono(a: int, b: int)
    requires
        1970 <= a < b,
    ensures
        days_before_year(a) + days_in_year(a) <= days_before_year(b),
    decreases b - a,
{
    if a + 1 < b {
        lemma_year_prefix_mono(a, b - 1);
    }
}

/// A day count has one civil date: two dates of the same day count are the
/// same date.
pub proof fn lemma_date_unique(days: int, a: (int, int, int), b: (int, int, int))
    requires
        is_date_of(days, a),
        is_date_of(days, b),
    ensures
        a == b,
{
    let (ya, ma, da) = a;
    let (yb, mb, db) = b;
    lemma_month_prefix_mono(ya, ma, ma + 1);
    lemma_month_prefix_mono(yb, mb, mb + 1);
    lemma_days_before_month_year(ya, ma + 1);
    lemma_days_before_month_year(yb, mb + 1);
    lemma_month_prefix_mono(ya, 1, ma);
    lemma_month_prefix_mono(yb, 1, mb);
    assert(days_before_month(ya, ma + 1) == days_before_month(ya, ma) + days_in_month(ya, ma));
    assert(days_before_month(yb, mb + 1) == days_before_month(yb, mb) + days_in_month(yb, mb));
    assert(days < days_before_year(ya) + days_in_year(ya));
    assert(days < days_before_year(yb) + days_in_year(yb));
    assert(days >= days_before_year(ya));
    assert(days >= days_before_year(yb));
    if ya < yb {
        lemma_year_prefix_mono(ya, yb);
    } else if yb < ya {
        lemma_year_prefix_mono(yb, ya);
    }
    assert(ya == yb);
    if ma < mb {
        lemma_month_prefix_mono(ya, ma + 1, mb);
    } else if mb < ma {
        lemma_month_prefix_mono(ya, mb + 1, ma);
    }
    assert(ma == mb);
}

/// One clock value gives one timestamp: any two texts that
/// `iso_from_unix_secs` may return for `secs` are equal.
pub proof fn lemma_iso_text_unique(secs: nat, a: (int, int, int), b: (int, int, int))
    requires
        is_date_of((secs / 86400) as int, a),
        is_date_of((secs / 86400) as int, b),
    ensures
        iso_spec(secs, a) == iso_spec(secs, b),
{
    lemma_date_unique((secs / 86400) as int, a, b);
}

/// The civil date `days` days after 1970-01-01.
pub fn days_to_ymd(days: u64) -> (r: (u64, u64, u64))
    ensures
        is_date_of(days as int, (r.0 as int, r.1 as int, r.2 as int)),
{
    let mut rest = days;
    let mut year: u64 = 1970;
    loop
        invariant
            year >= 1970,
            rest <= days,
            (year - 1970) * 365 <= days - rest,
            days == days_before_year(year as int) + rest,
        ensures
            year >= 1970,
            days == days_before_year(year as int) + rest,
            rest < days_in_year(year as int),
        decreases rest,
    {
        let days_in = if is_leap(year) {
            366u64
        } else {
            365u64
        };
        if rest < days_in {
            break;
        }
        rest -= days_in;
        year += 1;
    }
    let leap_year = is_leap(year);
    let mut month: u64 = 1;
    assert(days_before_month(year as int, 1) == 0);
    loop
        invariant
            1 <= month <= 12,
            leap_year == leap(year as int),
            year >= 1970,
            rest < days_in_year(year as int) - days_before_month(year as int, month as int),
            days == days_before_year(year as int) + days_before_month(year as int, month as int) + rest,
        ensures
            1 <= month <= 12,
            year >= 1970,
            rest < days_in_month(year as int, month as int),
            days == days_before_year(year as int) + days_before_month(year as int, month as int) + rest,
        decreases 12 - month,
    {
        let dim = month_length(leap_year, month);
        if rest < dim {
            break;
        }
        proof {
            lemma_days_before_month_year(year as int, month as int + 1);
            if month == 12 {
                reveal_with_fuel(days_before_month, 13);
                assert(false);
            }
        }
        rest -= dim;
        month += 1;
    }
    proof {
        lemma_days_before_month_year(year as int, month as int);
    }
    (year, month, rest + 1)
}

/// `secs` seconds after the Unix epoch as an ISO-8601 UTC timestamp
/// (`YYYY-MM-DDTHH:MM:SSZ`).
pub open spec fn iso_spec(secs: nat, ymd: (int, int, int)) -> Seq<char> {
    let (y, mo, d) = ymd;
    decimal_padded(y as nat, 4) + "-"@ + decimal_padded(mo as nat, 2) + "-"@ + decimal_padded(
        d as nat,
        2,
    ) + "T"@ + decimal_padded((secs / 3600 % 24) as nat, 2) + ":"@ + decimal_padded(
        ((secs % 3600) / 60) as nat,
        2,
    ) + ":"@ + decimal_padded((secs % 60) as nat, 2) + "Z"@
}

/// The ISO-8601 UTC timestamp of `secs` seconds after the Unix epoch, as
/// `iso_now` writes the current time.
pub fn iso_from_unix_secs(secs: u64) -> (r: String)
    ensures
        exists|ymd: (int, int, int)| is_date_of((secs / 86400) as int, ymd) && r@ == iso_spec(secs as nat, ymd),
{
    let h = secs / 3600 % 24;
    let rem = secs % 3600;
    let m = rem / 60;
    let s = rem % 60;
    let (year, month, day) = days_to_ymd(secs / 86400);
    let mut out = String::new();
    push_padded(&mut out, year, 4);
    push_str(&mut out, "-");
    push_padded(&mut out, month, 2);
    push_str(&mut out, "-");
    push_padded(&mut out, day, 2);
    push_str(&mut out, "T");
    push_padded(&mut out, h, 2);
    push_str(&mut out, ":");
    push_padded(&mut out, m, 2);
    push_str(&mut out, ":");
    push_padded(&mut out, s, 2);
    push_str(&mut out, "Z");
    let ghost ymd = (year as int, month as int, day as int);
    assert(out@ =~= iso_spec(secs as nat, ymd));
    out
}

/// The current time as an ISO-8601 UTC timestamp (`YYYY-MM-DDTHH:MM:SSZ`).
pub fn iso_now() -> (r: String)
    ensures
        exists|secs: nat, ymd: (int, int, int)|
            is_date_of((secs / 86400) as int, ymd) && r@ == iso_spec(secs, ymd),
{
    let secs = unix_time_secs();
    let r = iso_from_unix_secs(secs);
    proof {
        let ymd = choose|ymd: (int, int, int)|
            is_date_of((secs / 86400) as int, ymd) && r@ == iso_spec(secs as nat, ymd);
        assert(is_date_of(((secs as nat) / 86400) as int, ymd) && r@ == iso_spec(secs as nat, ymd));
    }
    r
}

// ── Runs ─────────────────────────────────────────────────────────────────────

/// One payload to fire in a run.
#[derive(Debug, Clone)]
pub struct Payload {
    pub prompt_id: String,
    pub payload_id: String,
    pub text: String,
    /// Session label: steps sharing a label share auth and cookie state.
    pub session: String,
}

/// One step of a scenario.
#[derive(Debug, Clone)]
pub struct ScenarioStep {
    pub id: String,
    pub request_id: Option<String>,
    pub prompt_id: Option<String>,
    pub prompt_text: String,
    pub session: String,
}

/// Progress notification after each attempt, and once at the end.
#[derive(Debug, Clone)]
pub struct RunProgress {
    pub run_id: String,
    pub seq: u32,
    pub total: u32,
    pub status: u16,
    pub error: Option<String>,
    pub finished: bool,
}

/// What is logged of one attempt.
#[derive(Debug, Clone)]
pub struct AttemptLog {
    pub run_id: String,
    pub seq: u32,
    pub request_method: String,
    pub request_url: String,
    pub request_headers: Pairs,
    pub request_body_size: u64,
    pub request_body: Option<String>,
    pub response_status: u16,
    pub response_headers: Pairs,
    pub response_body_size: u64,
    pub response_body: Option<String>,
    pub duration_ms: u64,
    pub error: Option<String>,
    pub is_timeout: bool,
}

/// The scope and message reported for a failed attempt: timeouts get a
/// scope of their own.
pub open spec fn attempt_error_spec(scope_prefix: Seq<char>, label: Seq<char>, run_id: Seq<char>, seq: u32, is_timeout: bool, error: Seq<char>) -> (Seq<char>, Seq<char>) {
    if is_timeout {
        (
            scope_prefix + "-timeout"@,
            label + " "@ + run_id + " timed out on attempt "@ + decimal(seq as nat) + ": "@ + error,
        )
    } else {
        (
            scope_prefix,
            label + " "@ + run_id + " hit a request error on attempt "@ + decimal(seq as nat) + ": "@
                + error,
        )
    }
}

/// The user-facing error event for a failed attempt: its scope and message.
pub fn build_attempt_error_event(scope_prefix: &str, label: &str, attempt: &AttemptLog, error: &str) -> (r: (String, String))
    ensures
        (r.0@, r.1@) == attempt_error_spec(
            scope_prefix@,
            label@,
            attempt.run_id@,
            attempt.seq,
            attempt.is_timeout,
            error@,
        ),
{
    let mut scope = owned(scope_prefix);
    let mut message = owned(label);
    push_str(&mut message, " ");
    push_str(&mut message, attempt.run_id.as_str());
    if attempt.is_timeout {
        push_str(&mut scope, "-timeout");
        push_str(&mut message, " timed out on attempt ");
    } else {
        push_str(&mut message, " hit a request error on attempt ");
    }
    push_decimal(&mut message, attempt.seq as u64);
    push_str(&mut message, ": ");
    push_str(&mut message, error);
    (scope, message)
}

/// The attempts of a scenario run, in firing order: each pass over the
/// steps (at least one pass) fires every step once, numbered from 1.
pub open spec fn scenario_schedule_spec(steps: nat, repeat: u32) -> Seq<(u32, u32, int)> {
    let passes = if repeat == 0 {
        1
    } else {
        repeat as int
    };
    Seq::new(
        (passes * steps) as nat,
        |k: int| ((k + 1) as u32, (k / (steps as int) + 1) as u32, k % (steps as int)),
    )
}

/// The number of attempts a scenario run announces: steps times passes
/// (at least one), saturating at `u32::MAX`.
pub open spec fn scenario_total(steps: nat, repeat: u32) -> u32 {
    let passes = if repeat == 0 {
        1
    } else {
        repeat as int
    };
    if steps * passes > u32::MAX {
        u32::MAX
    } else {
        (steps * passes) as u32
    }
}

/// The attempts of a scenario run as `(seq, iteration, step index)`, and
/// the total it announces.
pub fn scenario_schedule(steps: &[ScenarioStep], repeat: u32) -> (r: (u32, Vec<(u32, u32, usize)>))
    requires
        steps@.len() * (if repeat == 0 { 1 } else { repeat as int }) <= u32::MAX,
    ensures
        r.0 == scenario_total(steps@.len(), repeat),
        r.1@.len() == scenario_schedule_spec(steps@.len(), repeat).len(),
        forall|k: int|
            0 <= k < r.1@.len() ==> {
                let (seq, it, step) = #[trigger] r.1@[k];
                (seq, it, step as int) == scenario_schedule_spec(steps@.len(), repeat)[k]
            },
{
    let n = steps.len();
    let passes: u32 = if repeat == 0 {
        1
    } else {
        repeat
    };
    let ghost spec = scenario_schedule_spec(n as nat, repeat);
    proof {
        assert(n * passes <= u32::MAX);
    }
    let total: u32 = (n as u64 * passes as u64) as u32;
    let mut out: Vec<(u32, u32, usize)> = Vec::new();
    let mut seq: u32 = 0;
    let mut iteration: u64 = 1;
    while iteration <= passes as u64
        invariant
            1 <= iteration <= passes + 1,
            passes >= 1,
            passes as int == (if repeat == 0 { 1 } else { repeat as int }),
            n == steps@.len(),
            n * passes <= u32::MAX,
            spec == scenario_schedule_spec(n as nat, repeat),
            seq == (iteration - 1) * n,
            out@.len() == seq,
            forall|k: int|
                0 <= k < out@.len() ==> {
                    let (s, it, st) = #[trigger] out@[k];
                    (s, it, st as int) == spec[k]
                },
        decreases passes + 1 - iteration,
    {
        let mut i: usize = 0;
        while i < n
            invariant
                1 <= iteration <= passes,
                passes as int == (if repeat == 0 { 1 } else { repeat as int }),
                n == steps@.len(),
                n * passes <= u32::MAX,
                spec == scenario_schedule_spec(n as nat, repeat),
                i <= n,
                seq == (iteration - 1) * n + i,
                out@.len() == seq,
                forall|k: int|
                    0 <= k < out@.len() ==> {
                        let (s, it, st) = #[trigger] out@[k];
                        (s, it, st as int) == spec[k]
                    },
            decreases n - i,
        {
            proof {
                assert((iteration - 1) * n + i < passes * n) by (nonlinear_arith)
                    requires
                        iteration <= passes,
                        i < n,
                ;
                let k = seq as int;
                assert(k / (n as int) == iteration - 1 && k % (n as int) == i) by (nonlinear_arith)
                    requires
                        k == (iteration - 1) * n + i,
                        0 <= i < n,
                        iteration >= 1,
                ;
            }
            seq += 1;
            out.push((seq, iteration as u32, i));
            i += 1;
        }
        proof {
            assert((iteration - 1) * n + n == iteration * n) by (nonlinear_arith);
        }
        iteration += 1;
    }
    proof {
        assert(seq == passes * n) by (nonlinear_arith)
            requires
                seq == (iteration - 1) * n,
                iteration == passes + 1,
        ;
    }
    (total, out)
}

} // verus!
