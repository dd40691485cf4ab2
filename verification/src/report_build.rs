//! Assembling a report from a run's attempts, verdicts and triage: the
//! latest verdict per attempt, the counts, the groups by category and by
//! OWASP reference, and one evidence row per attempt.
use vstd::prelude::*;

use crate::report::{
    excerpt_spec, judge_info_spec, judge_info_view, parse_judge_info, triage_label, triage_status_label,
    trim_excerpt, verdict_label, verdict_text, JudgeVerdict, ReportAttempt, ReportData, ReportEvidenceRow,
    ReportFinding, ReportGroup, ReportSummary, TriageStatus,
};
use crate::report_keys::{key_less, key_lt, lemma_key_order};
use crate::text::{decimal, owned, push_decimal, push_str, str_eq, u64_to_decimal};

verus! {

/// A verdict as the report reads it. The judge's confidence comes as a
/// whole percentage.
#[derive(Debug)]
pub struct ReportVerdict {
    pub seq: u32,
    pub verdict: JudgeVerdict,
    pub confidence_pct: u32,
    pub category: String,
    pub owasp_ref: Option<String>,
    pub severity: Option<String>,
    pub rationale: String,
}

/// A pentester's triage of one attempt.
#[derive(Debug)]
pub struct TriageEntry {
    pub seq: u32,
    pub status: TriageStatus,
    pub note: Option<String>,
}

fn copy_opt(o: &Option<String>) -> (r: Option<String>)
    ensures
        r == *o,
{
    match o {
        Some(s) => Some(s.clone()),
        None => None,
    }
}

fn copy_verdict(v: &ReportVerdict) -> (r: ReportVerdict)
    ensures
        r == *v,
{
    ReportVerdict {
        seq: v.seq,
        verdict: v.verdict,
        confidence_pct: v.confidence_pct,
        category: v.category.clone(),
        owasp_ref: copy_opt(&v.owasp_ref),
        severity: copy_opt(&v.severity),
        rationale: v.rationale.clone(),
    }
}

// ── The latest verdict of each attempt ───────────────────────────────────────

/// Verdicts in strictly increasing order of `seq`.
pub open spec fn strictly_by_seq(s: Seq<ReportVerdict>) -> bool {
    forall|i: int, j: int| 0 <= i < j < s.len() ==> s[i].seq < s[j].seq
}

/// `vs[i]` is the last verdict for its attempt.
pub open spec fn is_latest(vs: Seq<ReportVerdict>, i: int) -> bool {
    0 <= i < vs.len() && forall|j: int| i < j < vs.len() ==> vs[j].seq != vs[i].seq
}

/// Some verdict of `out` is for attempt `seq`.
pub open spec fn has_seq(out: Seq<ReportVerdict>, seq: u32) -> bool {
    exists|k: int| 0 <= k < out.len() && #[trigger] out[k].seq == seq
}

/// `e` is the last verdict `vs` holds for its attempt.
pub open spec fn latest_in(vs: Seq<ReportVerdict>, e: ReportVerdict) -> bool {
    exists|i: int| is_latest(vs, i) && #[trigger] vs[i] == e
}

/// `out` holds, in order of `seq`, the last verdict of each attempt that
/// `vs` judges: a later verdict for an attempt replaces an earlier one.
pub open spec fn latest_verdicts_of(vs: Seq<ReportVerdict>, out: Seq<ReportVerdict>) -> bool {
    &&& strictly_by_seq(out)
    &&& forall|k: int| 0 <= k < out.len() ==> latest_in(vs, #[trigger] out[k])
    &&& forall|i: int| 0 <= i < vs.len() ==> has_seq(out, #[trigger] vs[i].seq)
}

/// The last verdict of each attempt, ordered by attempt.
pub fn latest_verdicts(vs: &Vec<ReportVerdict>) -> (out: Vec<ReportVerdict>)
    ensures
        latest_verdicts_of(vs@, out@),
{
    let mut out: Vec<ReportVerdict> = Vec::new();
    let mut i: usize = 0;
    while i < vs.len()
        invariant
            i <= vs@.len(),
            strictly_by_seq(out@),
            forall|k: int| 0 <= k < out@.len() ==> latest_in(vs@.take(i as int), #[trigger] out@[k]),
            forall|m: int| 0 <= m < i ==> has_seq(out@, #[trigger] vs@[m].seq),
        decreases vs@.len() - i,
    {
        let x = copy_verdict(&vs[i]);
        let ghost pre = vs@.take(i as int);
        let ghost next = vs@.take(i + 1);
        assert(next =~= pre.push(vs@[i as int]));
        let mut p: usize = 0;
        while p < out.len() && out[p].seq < x.seq
            invariant
                p <= out@.len(),
                forall|k: int| 0 <= k < p ==> out@[k].seq < x.seq,
            decreases out@.len() - p,
        {
            p += 1;
        }
        let ghost old_out = out@;
        if p < out.len() && out[p].seq == x.seq {
            out.set(p, x);
            proof {
                assert forall|k: int| 0 <= k < out@.len() implies latest_in(next, #[trigger] out@[k]) by {
                    if k == p {
                        assert(is_latest(next, i as int));
                        assert(next[i as int] == out@[k]);
                    } else {
                        assert(latest_in(pre, old_out[k]));
                        let m = choose|m: int| is_latest(pre, m) && #[trigger] pre[m] == old_out[k];
                        assert(old_out[k].seq != x.seq);
                        assert(is_latest(next, m));
                        assert(next[m] == out@[k]);
                    }
                }
                assert forall|m: int| 0 <= m < i + 1 implies has_seq(out@, #[trigger] vs@[m].seq) by {
                    if m == i {
                        assert(out@[p as int].seq == vs@[m].seq);
                    } else {
                        assert(has_seq(old_out, vs@[m].seq));
                        let k = choose|k: int| 0 <= k < old_out.len() && #[trigger] old_out[k].seq == vs@[m].seq;
                        assert(out@[k].seq == vs@[m].seq);
                    }
                }
            }
        } else {
            out.insert(p, x);
            proof {
                assert forall|a: int, b: int| 0 <= a < b < out@.len() implies out@[a].seq < out@[b].seq by {
                    if b < p {
                    } else if a < p && b == p {
                    } else if a < p {
                        assert(out@[b] == old_out[b - 1]);
                    } else if a == p {
                        assert(out@[b] == old_out[b - 1]);
                    } else {
                        assert(out@[a] == old_out[a - 1]);
                        assert(out@[b] == old_out[b - 1]);
                    }
                }
                assert forall|k: int| 0 <= k < out@.len() implies latest_in(next, #[trigger] out@[k]) by {
                    if k == p {
                        assert(is_latest(next, i as int));
                        assert(next[i as int] == out@[k]);
                    } else {
                        let kk = if k < p { k } else { k - 1 };
                        assert(out@[k] == old_out[kk]);
                        assert(latest_in(pre, old_out[kk]));
                        let m = choose|m: int| is_latest(pre, m) && #[trigger] pre[m] == old_out[kk];
                        assert(old_out[kk].seq != x.seq);
                        assert(is_latest(next, m));
                        assert(next[m] == out@[k]);
                    }
                }
                assert forall|m: int| 0 <= m < i + 1 implies has_seq(out@, #[trigger] vs@[m].seq) by {
                    if m == i {
                        assert(out@[p as int].seq == vs@[m].seq);
                    } else {
                        assert(has_seq(old_out, vs@[m].seq));
                        let k = choose|k: int| 0 <= k < old_out.len() && #[trigger] old_out[k].seq == vs@[m].seq;
                        if k < p {
                            assert(out@[k].seq == vs@[m].seq);
                        } else {
                            assert(out@[k + 1].seq == vs@[m].seq);
                        }
                    }
                }
            }
        }
        i += 1;
    }
    assert(vs@.take(vs@.len() as int) =~= vs@);
    out
}

// ── Attempts in order of `seq` ───────────────────────────────────────────────

/// The attempts of `s` numbered `k`, in their order in `s`.
pub open spec fn with_seq(s: Seq<ReportAttempt>, k: u32) -> Seq<ReportAttempt>
    decreases s.len(),
{
    if s.len() == 0 {
        seq![]
    } else if s.last().seq == k {
        with_seq(s.drop_last(), k).push(s.last())
    } else {
        with_seq(s.drop_last(), k)
    }
}

pub open spec fn sorted_by_seq(s: Seq<ReportAttempt>) -> bool {
    forall|i: int, j: int| 0 <= i < j < s.len() ==> s[i].seq <= s[j].seq
}

/// `out` is `input` sorted by `seq`, attempts with equal `seq` keeping
/// their order (a stable sort).
pub open spec fn stably_sorted(input: Seq<ReportAttempt>, out: Seq<ReportAttempt>) -> bool {
    sorted_by_seq(out) && forall|k: u32| #[trigger] with_seq(out, k) == with_seq(input, k)
}

proof fn lemma_with_seq_concat(a: Seq<ReportAttempt>, b: Seq<ReportAttempt>, k: u32)
    ensures
        with_seq(a + b, k) == with_seq(a, k) + with_seq(b, k),
    decreases b.len(),
{
    if b.len() == 0 {
        assert(a + b =~= a);
        assert(with_seq(a, k) + with_seq(b, k) =~= with_seq(a, k));
    } else {
        lemma_with_seq_concat(a, b.drop_last(), k);
        assert((a + b).drop_last() =~= a + b.drop_last());
        assert((a + b).last() == b.last());
        if b.last().seq == k {
            assert(with_seq(a, k) + with_seq(b.drop_last(), k).push(b.last()) =~= (with_seq(a, k) + with_seq(
                b.drop_last(),
                k,
            )).push(b.last()));
        }
    }
}

proof fn lemma_with_seq_none(b: Seq<ReportAttempt>, k: u32)
    requires
        forall|j: int| 0 <= j < b.len() ==> (#[trigger] b[j]).seq != k,
    ensures
        with_seq(b, k) == Seq::<ReportAttempt>::empty(),
    decreases b.len(),
{
    if b.len() > 0 {
        assert forall|j: int| 0 <= j < b.drop_last().len() implies (#[trigger] b.drop_last()[j]).seq != k by {
            assert(b.drop_last()[j] == b[j]);
        }
        lemma_with_seq_none(b.drop_last(), k);
    }
}

proof fn lemma_insert_keeps_stable(
    prefix: Seq<ReportAttempt>,
    out: Seq<ReportAttempt>,
    x: ReportAttempt,
    p: int,
)
    requires
        0 <= p <= out.len(),
        stably_sorted(prefix, out),
        forall|j: int| 0 <= j < p ==> (#[trigger] out[j]).seq <= x.seq,
        forall|j: int| p <= j < out.len() ==> (#[trigger] out[j]).seq > x.seq,
    ensures
        stably_sorted(prefix.push(x), out.insert(p, x)),
{
    let t = out.take(p);
    let r = out.skip(p);
    assert(out =~= t + r);
    assert(out.insert(p, x) =~= t + seq![x] + r);
    assert forall|k: u32| #[trigger] with_seq(out.insert(p, x), k) == with_seq(prefix.push(x), k) by {
        lemma_with_seq_concat(t + seq![x], r, k);
        lemma_with_seq_concat(t, seq![x], k);
        lemma_with_seq_concat(t, r, k);
        assert(with_seq(seq![x], k) == with_seq(seq![x].drop_last(), k).push(x) || with_seq(seq![x], k)
            == with_seq(seq![x].drop_last(), k));
        assert(seq![x].drop_last() =~= Seq::<ReportAttempt>::empty());
        assert(with_seq(out, k) == with_seq(prefix, k));
        assert(prefix.push(x).drop_last() =~= prefix);
        if x.seq == k {
            assert forall|j: int| 0 <= j < r.len() implies (#[trigger] r[j]).seq != k by {
                assert(r[j] == out[p + j]);
            }
            lemma_with_seq_none(r, k);
            assert(with_seq(t, k) + seq![x] + Seq::<ReportAttempt>::empty() =~= with_seq(t, k).push(x));
            assert(with_seq(t, k) + Seq::<ReportAttempt>::empty() =~= with_seq(t, k));
        } else {
            assert(with_seq(t, k) + Seq::<ReportAttempt>::empty() =~= with_seq(t, k));
        }
    }
    let n = out.insert(p, x);
    assert forall|a: int, b: int| 0 <= a < b < n.len() implies n[a].seq <= n[b].seq by {
        if b < p {
        } else if b == p {
        } else if a < p {
            assert(n[b] == out[b - 1]);
        } else if a == p {
            assert(n[b] == out[b - 1]);
        } else {
            assert(n[a] == out[a - 1]);
            assert(n[b] == out[b - 1]);
        }
    }
}

/// The attempts sorted by `seq`, equal numbers keeping their order.
pub fn sort_attempts(attempts: Vec<ReportAttempt>) -> (out: Vec<ReportAttempt>)
    ensures
        stably_sorted(attempts@, out@),
{
    let ghost orig = attempts@;
    let mut rest = attempts;
    let mut out: Vec<ReportAttempt> = Vec::new();
    let ghost mut done: Seq<ReportAttempt> = seq![];
    assert(stably_sorted(done, out@));
    while rest.len() > 0
        invariant
            orig == done + rest@,
            stably_sorted(done, out@),
        decreases rest@.len(),
    {
        let x = rest.remove(0);
        let mut p: usize = 0;
        while p < out.len() && out[p].seq <= x.seq
            invariant
                p <= out@.len(),
                sorted_by_seq(out@),
                forall|j: int| 0 <= j < p ==> (#[trigger] out@[j]).seq <= x.seq,
            decreases out@.len() - p,
        {
            p += 1;
        }
        proof {
            assert forall|j: int| p <= j < out@.len() implies (#[trigger] out@[j]).seq > x.seq by {
                assert(out@[p as int].seq > x.seq);
            }
            lemma_insert_keeps_stable(done, out@, x, p as int);
        }
        out.insert(p, x);
        proof {
            done = done.push(x);
        }
    }
    assert(done =~= orig);
    out
}

// ── Groups ───────────────────────────────────────────────────────────────────

/// The text shown for an optional field: the value, or `-`.
pub open spec fn or_dash(o: Option<String>) -> Seq<char> {
    match o {
        Some(s) => s@,
        None => "-"@,
    }
}

/// A confidence as shown: the whole percentage and `%`.
pub open spec fn pct_text(pct: u32) -> Seq<char> {
    decimal(pct as nat) + "%"@
}

/// The key a verdict is grouped under: its category, or its OWASP
/// reference (`unmapped` when it has none).
pub open spec fn key_of(v: ReportVerdict, by_owasp: bool) -> Seq<char> {
    if by_owasp {
        match v.owasp_ref {
            Some(r) => r@,
            None => "unmapped"@,
        }
    } else {
        v.category@
    }
}

/// The verdicts of `out` grouped under `key`, in their order.
pub open spec fn members(out: Seq<ReportVerdict>, key: Seq<char>, by_owasp: bool) -> Seq<ReportVerdict>
    decreases out.len(),
{
    if out.len() == 0 {
        seq![]
    } else if key_of(out.last(), by_owasp) == key {
        members(out.drop_last(), key, by_owasp).push(out.last())
    } else {
        members(out.drop_last(), key, by_owasp)
    }
}

pub open spec fn is_vulnerable(v: JudgeVerdict) -> bool {
    v == JudgeVerdict::Success || v == JudgeVerdict::Partial
}

/// How many of the verdicts found the target vulnerable (success or
/// partial).
pub open spec fn vulnerable_count(vs: Seq<ReportVerdict>) -> nat
    decreases vs.len(),
{
    if vs.len() == 0 {
        0
    } else {
        vulnerable_count(vs.drop_last()) + if is_vulnerable(vs.last().verdict) {
            1nat
        } else {
            0nat
        }
    }
}

/// The finding a group lists for a verdict.
pub open spec fn finding_is(f: ReportFinding, v: ReportVerdict) -> bool {
    &&& f.seq == v.seq
    &&& f.verdict@ == verdict_text(v.verdict)
    &&& f.confidence@ == pct_text(v.confidence_pct)
    &&& f.category@ == v.category@
    &&& f.severity@ == or_dash(v.severity)
    &&& f.owasp_ref@ == or_dash(v.owasp_ref)
    &&& f.rationale@ == v.rationale@
}

/// `g` is the group of `key`, listing `ms` in order.
pub open spec fn group_is(g: ReportGroup, key: Seq<char>, ms: Seq<ReportVerdict>) -> bool {
    &&& g.key@ == key
    &&& g.findings@.len() == ms.len()
    &&& forall|i: int| 0 <= i < ms.len() ==> finding_is(#[trigger] g.findings@[i], ms[i])
    &&& g.findings_total == ms.len()
    &&& g.vulnerable_total == vulnerable_count(ms)
}

/// Some verdict of `out` is grouped under `key`.
pub open spec fn is_key_in(out: Seq<ReportVerdict>, key: Seq<char>, by_owasp: bool) -> bool {
    exists|m: int| 0 <= m < out.len() && key_of(#[trigger] out[m], by_owasp) == key
}

/// Some group of `gs` has key `key`.
pub open spec fn has_group(gs: Seq<ReportGroup>, key: Seq<char>) -> bool {
    exists|g: int| 0 <= g < gs.len() && (#[trigger] gs[g]).key@ == key
}

/// `gs` groups `out`: one group per key, keys in report order, each
/// listing its verdicts in order of attempt.
pub open spec fn groups_of(out: Seq<ReportVerdict>, by_owasp: bool, gs: Seq<ReportGroup>) -> bool {
    &&& forall|i: int, j: int| 0 <= i < j < gs.len() ==> key_lt(gs[i].key@, gs[j].key@, by_owasp)
    &&& forall|g: int| 0 <= g < gs.len() ==> is_key_in(out, (#[trigger] gs[g]).key@, by_owasp)
    &&& forall|g: int| 0 <= g < gs.len() ==> group_is(#[trigger] gs[g], gs[g].key@, members(out, gs[g].key@, by_owasp))
    &&& forall|m: int| 0 <= m < out.len() ==> has_group(gs, key_of(#[trigger] out[m], by_owasp))
}

fn verdict_key(v: &ReportVerdict, by_owasp: bool) -> (r: String)
    ensures
        r@ == key_of(*v, by_owasp),
{
    if by_owasp {
        match &v.owasp_ref {
            Some(r) => r.clone(),
            None => owned("unmapped"),
        }
    } else {
        v.category.clone()
    }
}

fn dash_or(o: &Option<String>) -> (r: String)
    ensures
        r@ == or_dash(*o),
{
    match o {
        Some(s) => s.clone(),
        None => owned("-"),
    }
}

fn pct_string(pct: u32) -> (r: String)
    ensures
        r@ == pct_text(pct),
{
    let mut r = String::new();
    push_decimal(&mut r, pct as u64);
    push_str(&mut r, "%");
    assert(r@ =~= pct_text(pct));
    r
}

fn finding_of(v: &ReportVerdict) -> (f: ReportFinding)
    ensures
        finding_is(f, *v),
{
    ReportFinding {
        seq: v.seq,
        verdict: verdict_label(v.verdict),
        confidence: pct_string(v.confidence_pct),
        category: v.category.clone(),
        severity: dash_or(&v.severity),
        owasp_ref: dash_or(&v.owasp_ref),
        rationale: v.rationale.clone(),
    }
}

/// Some key of `keys` is `key`.
pub open spec fn has_key(keys: Seq<String>, key: Seq<char>) -> bool {
    exists|k: int| 0 <= k < keys.len() && (#[trigger] keys[k])@ == key
}

/// The distinct keys of `out`, in report order.
fn group_keys(out: &Vec<ReportVerdict>, by_owasp: bool) -> (keys: Vec<String>)
    ensures
        forall|i: int, j: int| 0 <= i < j < keys@.len() ==> key_lt(keys@[i]@, keys@[j]@, by_owasp),
        forall|k: int| 0 <= k < keys@.len() ==> is_key_in(out@, (#[trigger] keys@[k])@, by_owasp),
        forall|m: int| 0 <= m < out@.len() ==> has_key(keys@, key_of(#[trigger] out@[m], by_owasp)),
{
    let mut keys: Vec<String> = Vec::new();
    let mut m: usize = 0;
    while m < out.len()
        invariant
            m <= out@.len(),
            forall|i: int, j: int| 0 <= i < j < keys@.len() ==> key_lt(keys@[i]@, keys@[j]@, by_owasp),
            forall|k: int| 0 <= k < keys@.len() ==> is_key_in(out@, (#[trigger] keys@[k])@, by_owasp),
            forall|mm: int| 0 <= mm < m ==> has_key(keys@, key_of(#[trigger] out@[mm], by_owasp)),
        decreases out@.len() - m,
    {
        let key = verdict_key(&out[m], by_owasp);
        let mut p: usize = 0;
        while p < keys.len() && key_less(keys[p].as_str(), key.as_str(), by_owasp)
            invariant
                p <= keys@.len(),
                forall|k: int| 0 <= k < p ==> key_lt((#[trigger] keys@[k])@, key@, by_owasp),
            decreases keys@.len() - p,
        {
            p += 1;
        }
        let ghost old_keys = keys@;
        assert(is_key_in(out@, key@, by_owasp)) by {
            assert(key_of(out@[m as int], by_owasp) == key@);
        }
        if p < keys.len() && str_eq(keys[p].as_str(), key.as_str()) {
            assert forall|mm: int| 0 <= mm < m + 1 implies has_key(keys@, key_of(#[trigger] out@[mm], by_owasp)) by {
                if mm == m {
                    assert(keys@[p as int]@ == key_of(out@[mm], by_owasp));
                }
            }
        } else {
            proof {
                if p < keys@.len() {
                    lemma_key_order(keys@[p as int]@, key@, key@, by_owasp);
                    assert(key_lt(key@, keys@[p as int]@, by_owasp));
                }
            }
            keys.insert(p, key);
            proof {
                assert forall|i: int, j: int| 0 <= i < j < keys@.len() implies key_lt(
                    keys@[i]@,
                    keys@[j]@,
                    by_owasp,
                ) by {
                    if j < p {
                    } else if j == p {
                    } else if i < p {
                        assert(keys@[j] == old_keys[j - 1]);
                        lemma_key_order(keys@[i]@, keys@[p as int]@, keys@[j]@, by_owasp);
                        assert(key_lt(key@, old_keys[p as int]@, by_owasp));
                        if j - 1 > p {
                            lemma_key_order(key@, old_keys[p as int]@, old_keys[j - 1]@, by_owasp);
                        }
                    } else if i == p {
                        assert(keys@[j] == old_keys[j - 1]);
                        if j - 1 > p {
                            lemma_key_order(key@, old_keys[p as int]@, old_keys[j - 1]@, by_owasp);
                        }
                    } else {
                        assert(keys@[i] == old_keys[i - 1]);
                        assert(keys@[j] == old_keys[j - 1]);
                    }
                }
                assert forall|k: int| 0 <= k < keys@.len() implies is_key_in(out@, (#[trigger] keys@[k])@, by_owasp) by {
                    if k < p {
                        assert(keys@[k] == old_keys[k]);
                    } else if k > p {
                        assert(keys@[k] == old_keys[k - 1]);
                    }
                }
                assert forall|mm: int| 0 <= mm < m + 1 implies has_key(keys@, key_of(#[trigger] out@[mm], by_owasp)) by {
                    if mm == m {
                        assert(keys@[p as int]@ == key_of(out@[mm], by_owasp));
                    } else {
                        assert(has_key(old_keys, key_of(out@[mm], by_owasp)));
                        let k = choose|k: int| 0 <= k < old_keys.len() && (#[trigger] old_keys[k])@ == key_of(out@[mm], by_owasp);
                        if k < p {
                            assert(keys@[k] == old_keys[k]);
                        } else {
                            assert(keys@[k + 1] == old_keys[k]);
                        }
                    }
                }
            }
        }
        m += 1;
    }
    keys
}

/// The group of `key`: the verdicts of `out` grouped under it.
fn group_for(out: &Vec<ReportVerdict>, key: String, by_owasp: bool) -> (g: ReportGroup)
    requires
        out@.len() <= u32::MAX,
    ensures
        group_is(g, key@, members(out@, key@, by_owasp)),
{
    let mut findings: Vec<ReportFinding> = Vec::new();
    let mut vulnerable: u32 = 0;
    let mut i: usize = 0;
    while i < out.len()
        invariant
            i <= out@.len(),
            out@.len() <= u32::MAX,
            findings@.len() == members(out@.take(i as int), key@, by_owasp).len(),
            findings@.len() <= i,
            vulnerable == vulnerable_count(members(out@.take(i as int), key@, by_owasp)),
            vulnerable <= findings@.len(),
            forall|j: int|
                0 <= j < findings@.len() ==> finding_is(
                    #[trigger] findings@[j],
                    members(out@.take(i as int), key@, by_owasp)[j],
                ),
        decreases out@.len() - i,
    {
        let ghost pre = out@.take(i as int);
        assert(out@.take(i + 1).drop_last() =~= pre);
        let k = verdict_key(&out[i], by_owasp);
        assert(out@.take(i + 1).last() == out@[i as int]);
        if str_eq(k.as_str(), key.as_str()) {
            assert(members(out@.take(i + 1), key@, by_owasp) == members(pre, key@, by_owasp).push(out@[i as int]));
            assert(members(pre, key@, by_owasp).push(out@[i as int]).drop_last() =~= members(pre, key@, by_owasp));
            let ghost before = findings@;
            findings.push(finding_of(&out[i]));
            if out[i].verdict == JudgeVerdict::Success || out[i].verdict == JudgeVerdict::Partial {
                vulnerable = vulnerable + 1;
            }
            assert forall|j: int| 0 <= j < findings@.len() implies finding_is(
                #[trigger] findings@[j],
                members(out@.take(i + 1), key@, by_owasp)[j],
            ) by {
                if j < before.len() {
                    assert(findings@[j] == before[j]);
                }
            }
        }
        i += 1;
    }
    assert(out@.take(out@.len() as int) =~= out@);
    let n = findings.len() as u32;
    ReportGroup { key, findings_total: n, vulnerable_total: vulnerable, findings }
}

/// The groups of `out` by category, or by OWASP reference.
pub fn build_groups(out: &Vec<ReportVerdict>, by_owasp: bool) -> (gs: Vec<ReportGroup>)
    requires
        out@.len() <= u32::MAX,
    ensures
        groups_of(out@, by_owasp, gs@),
{
    let keys = group_keys(out, by_owasp);
    let mut gs: Vec<ReportGroup> = Vec::new();
    let mut i: usize = 0;
    while i < keys.len()
        invariant
            i <= keys@.len(),
            out@.len() <= u32::MAX,
            gs@.len() == i,
            forall|j: int| 0 <= j < i ==> (#[trigger] gs@[j]).key@ == keys@[j]@,
            forall|j: int|
                0 <= j < i ==> group_is(#[trigger] gs@[j], gs@[j].key@, members(out@, gs@[j].key@, by_owasp)),
        decreases keys@.len() - i,
    {
        let g = group_for(out, keys[i].clone(), by_owasp);
        gs.push(g);
        i += 1;
    }
    assert forall|m: int| 0 <= m < out@.len() implies has_group(gs@, key_of(#[trigger] out@[m], by_owasp)) by {
        assert(has_key(keys@, key_of(out@[m], by_owasp)));
        let k = choose|k: int| 0 <= k < keys@.len() && (#[trigger] keys@[k])@ == key_of(out@[m], by_owasp);
        assert(gs@[k].key@ == key_of(out@[m], by_owasp));
    }
    assert forall|g: int| 0 <= g < gs@.len() implies is_key_in(out@, (#[trigger] gs@[g]).key@, by_owasp) by {
        assert(gs@[g].key@ == keys@[g]@);
    }
    gs
}

// ── Evidence ─────────────────────────────────────────────────────────────────

/// The verdict `out` holds for attempt `seq`.
pub open spec fn verdict_for(out: Seq<ReportVerdict>, seq: u32) -> Option<ReportVerdict> {
    if has_seq(out, seq) {
        Some(out[choose|k: int| 0 <= k < out.len() && #[trigger] out[k].seq == seq])
    } else {
        None
    }
}

/// The last triage entry for attempt `seq`: a later entry replaces an
/// earlier one.
pub open spec fn triage_for(ts: Seq<TriageEntry>, seq: u32) -> Option<TriageEntry>
    decreases ts.len(),
{
    if ts.len() == 0 {
        None
    } else if ts.last().seq == seq {
        Some(ts.last())
    } else {
        triage_for(ts.drop_last(), seq)
    }
}

/// `row` is the evidence row of attempt `a`, judged by `v` (if at all)
/// and triaged by `t` (if at all).
pub open spec fn row_is(row: ReportEvidenceRow, a: ReportAttempt, v: Option<ReportVerdict>, t: Option<TriageEntry>) -> bool {
    &&& row.seq == a.seq
    &&& row.prompt_id@ == a.prompt_id@
    &&& row.step_id@ == or_dash(a.step_id)
    &&& row.iteration@ == (match a.iteration {
        Some(i) => decimal(i as nat),
        None => "-"@,
    })
    &&& row.session@ == or_dash(a.session)
    &&& row.http_status == a.http_status
    &&& row.latency_ms@ == (match a.latency_ms {
        Some(ms) => decimal(ms as nat) + "ms"@,
        None => "-"@,
    })
    &&& row.verdict@ == (match v {
        Some(v) => verdict_text(v.verdict),
        None => "PENDING"@,
    })
    &&& row.confidence@ == (match v {
        Some(v) => pct_text(v.confidence_pct),
        None => "-"@,
    })
    &&& row.category@ == (match v {
        Some(v) => v.category@,
        None => "-"@,
    })
    &&& row.owasp_ref@ == (match v {
        Some(v) => or_dash(v.owasp_ref),
        None => "-"@,
    })
    &&& row.severity@ == (match v {
        Some(v) => or_dash(v.severity),
        None => "-"@,
    })
    &&& row.rationale@ == (match v {
        Some(v) => v.rationale@,
        None => "Not judged"@,
    })
    &&& row.response_excerpt@ == excerpt_spec(a.response_excerpt@, 200)
    &&& row.triage_status@ == triage_label(
        match t {
            Some(t) => t.status,
            None => TriageStatus::Unreviewed,
        },
    )
    &&& row.triage_note@ == (match t {
        Some(t) => match t.note {
            Some(n) => n@,
            None => Seq::<char>::empty(),
        },
        None => Seq::<char>::empty(),
    })
}

fn find_verdict(out: &Vec<ReportVerdict>, seq: u32) -> (r: Option<usize>)
    requires
        strictly_by_seq(out@),
    ensures
        match r {
            Some(k) => k < out@.len() && verdict_for(out@, seq) == Some(out@[k as int]),
            None => verdict_for(out@, seq) is None,
        },
{
    let mut k: usize = 0;
    while k < out.len()
        invariant
            k <= out@.len(),
            strictly_by_seq(out@),
            forall|j: int| 0 <= j < k ==> out@[j].seq != seq,
        decreases out@.len() - k,
    {
        if out[k].seq == seq {
            proof {
                assert(has_seq(out@, seq));
                let c = choose|c: int| 0 <= c < out@.len() && #[trigger] out@[c].seq == seq;
                assert(c == k as int);
            }
            return Some(k);
        }
        k += 1;
    }
    None
}

fn find_triage(ts: &Vec<TriageEntry>, seq: u32) -> (r: Option<usize>)
    ensures
        match r {
            Some(k) => k < ts@.len() && triage_for(ts@, seq) == Some(ts@[k as int]),
            None => triage_for(ts@, seq) is None,
        },
{
    let mut n: usize = ts.len();
    assert(ts@.take(n as int) =~= ts@);
    while n > 0
        invariant
            n <= ts@.len(),
            triage_for(ts@, seq) == triage_for(ts@.take(n as int), seq),
        decreases n,
    {
        let ghost t = ts@.take(n as int);
        assert(t.drop_last() =~= ts@.take(n - 1));
        if ts[n - 1].seq == seq {
            return Some(n - 1);
        }
        n -= 1;
    }
    None
}

fn dash_opt_u32(o: Option<u32>) -> (r: String)
    ensures
        r@ == (match o {
            Some(i) => decimal(i as nat),
            None => "-"@,
        }),
{
    match o {
        Some(i) => u64_to_decimal(i as u64),
        None => owned("-"),
    }
}

fn latency_text(o: Option<u64>) -> (r: String)
    ensures
        r@ == (match o {
            Some(ms) => decimal(ms as nat) + "ms"@,
            None => "-"@,
        }),
{
    match o {
        Some(ms) => {
            let mut r = String::new();
            push_decimal(&mut r, ms);
            push_str(&mut r, "ms");
            assert(r@ =~= decimal(ms as nat) + "ms"@);
            r
        },
        None => owned("-"),
    }
}

fn evidence_row(a: ReportAttempt, v: Option<&ReportVerdict>, t: Option<&TriageEntry>) -> (row: ReportEvidenceRow)
    ensures
        row_is(
            row,
            a,
            match v {
                Some(v) => Some(*v),
                None => None,
            },
            match t {
                Some(t) => Some(*t),
                None => None,
            },
        ),
{
    let excerpt = trim_excerpt(a.response_excerpt.as_str(), 200);
    let step_id = dash_or(&a.step_id);
    let session = dash_or(&a.session);
    let iteration = dash_opt_u32(a.iteration);
    let latency_ms = latency_text(a.latency_ms);
    let (verdict, confidence, category, owasp_ref, severity, rationale) = match v {
        Some(v) => (
            verdict_label(v.verdict),
            pct_string(v.confidence_pct),
            v.category.clone(),
            dash_or(&v.owasp_ref),
            dash_or(&v.severity),
            v.rationale.clone(),
        ),
        None => (owned("PENDING"), owned("-"), owned("-"), owned("-"), owned("-"), owned("Not judged")),
    };
    let triage_status = triage_status_label(
        match t {
            Some(t) => Some(t.status),
            None => None,
        },
    );
    let triage_note = match t {
        Some(t) => match &t.note {
            Some(n) => n.clone(),
            None => String::new(),
        },
        None => String::new(),
    };
    ReportEvidenceRow {
        seq: a.seq,
        prompt_id: a.prompt_id,
        step_id,
        iteration,
        session,
        http_status: a.http_status,
        latency_ms,
        verdict,
        confidence,
        category,
        owasp_ref,
        severity,
        rationale,
        response_excerpt: excerpt,
        triage_status,
        triage_note,
    }
}

// ── The report ───────────────────────────────────────────────────────────────

/// How many of the verdicts are `kind`.
pub open spec fn kind_count(vs: Seq<ReportVerdict>, kind: JudgeVerdict) -> nat
    decreases vs.len(),
{
    if vs.len() == 0 {
        0
    } else {
        kind_count(vs.drop_last(), kind) + if vs.last().verdict == kind {
            1nat
        } else {
            0nat
        }
    }
}

/// The counts of a report over its attempts and latest verdicts.
pub open spec fn summary_is(s: ReportSummary, attempts: nat, out: Seq<ReportVerdict>) -> bool {
    &&& s.attempts_total == attempts
    &&& s.judged_total == out.len()
    &&& s.success_total == kind_count(out, JudgeVerdict::Success)
    &&& s.partial_total == kind_count(out, JudgeVerdict::Partial)
    &&& s.fail_total == kind_count(out, JudgeVerdict::Fail)
    &&& s.unclear_total == kind_count(out, JudgeVerdict::Unclear)
    &&& s.vulnerable_total == s.success_total + s.partial_total
}

proof fn lemma_kind_counts(vs: Seq<ReportVerdict>)
    ensures
        kind_count(vs, JudgeVerdict::Success) + kind_count(vs, JudgeVerdict::Partial) + kind_count(
            vs,
            JudgeVerdict::Fail,
        ) + kind_count(vs, JudgeVerdict::Unclear) == vs.len(),
    decreases vs.len(),
{
    if vs.len() > 0 {
        lemma_kind_counts(vs.drop_last());
    }
}

fn summarize(attempts: usize, out: &Vec<ReportVerdict>) -> (s: ReportSummary)
    requires
        attempts <= u32::MAX,
        out@.len() <= u32::MAX,
    ensures
        summary_is(s, attempts as nat, out@),
{
    let mut success: u32 = 0;
    let mut partial: u32 = 0;
    let mut fail: u32 = 0;
    let mut unclear: u32 = 0;
    let mut i: usize = 0;
    while i < out.len()
        invariant
            i <= out@.len(),
            out@.len() <= u32::MAX,
            success == kind_count(out@.take(i as int), JudgeVerdict::Success),
            partial == kind_count(out@.take(i as int), JudgeVerdict::Partial),
            fail == kind_count(out@.take(i as int), JudgeVerdict::Fail),
            unclear == kind_count(out@.take(i as int), JudgeVerdict::Unclear),
        decreases out@.len() - i,
    {
        proof {
            lemma_kind_counts(out@.take(i as int));
            assert(out@.take(i + 1).drop_last() =~= out@.take(i as int));
        }
        match out[i].verdict {
            JudgeVerdict::Success => success += 1,
            JudgeVerdict::Partial => partial += 1,
            JudgeVerdict::Fail => fail += 1,
            JudgeVerdict::Unclear => unclear += 1,
        }
        i += 1;
    }
    proof {
        assert(out@.take(out@.len() as int) =~= out@);
        lemma_kind_counts(out@);
    }
    ReportSummary {
        attempts_total: attempts as u32,
        judged_total: out.len() as u32,
        vulnerable_total: success + partial,
        success_total: success,
        partial_total: partial,
        fail_total: fail,
        unclear_total: unclear,
    }
}

/// What a report is built from.
#[derive(Debug)]
pub struct ReportBuildInput {
    pub engagement_slug: String,
    pub run_id: String,
    pub generated_at: String,
    pub started_at: Option<String>,
    pub finished_at: Option<String>,
    pub judge_model: Option<String>,
    pub attempts: Vec<ReportAttempt>,
    pub verdicts: Vec<ReportVerdict>,
    /// Triage by attempt; an attempt without an entry is unreviewed.
    pub triage: Vec<TriageEntry>,
}

pub open spec fn opt_view(o: Option<String>) -> Option<Seq<char>> {
    match o {
        Some(s) => Some(s@),
        None => None,
    }
}

/// The evidence rows of `sorted` attempts.
pub open spec fn rows_are(
    rows: Seq<ReportEvidenceRow>,
    sorted: Seq<ReportAttempt>,
    out: Seq<ReportVerdict>,
    triage: Seq<TriageEntry>,
) -> bool {
    rows.len() == sorted.len() && forall|i: int|
        0 <= i < rows.len() ==> row_is(
            #[trigger] rows[i],
            sorted[i],
            verdict_for(out, sorted[i].seq),
            triage_for(triage, sorted[i].seq),
        )
}

/// `d` is the report of `input`, given the latest verdicts `out` and the
/// attempts sorted by number.
pub open spec fn report_is(d: ReportData, input: ReportBuildInput, out: Seq<ReportVerdict>, sorted: Seq<ReportAttempt>) -> bool {
    &&& latest_verdicts_of(input.verdicts@, out)
    &&& stably_sorted(input.attempts@, sorted)
    &&& d.engagement_slug == input.engagement_slug
    &&& d.run_id == input.run_id
    &&& d.generated_at == input.generated_at
    &&& d.started_at@ == or_dash(input.started_at)
    &&& d.finished_at@ == or_dash(input.finished_at)
    &&& judge_info_view(d.judge) == judge_info_spec(opt_view(input.judge_model))
    &&& summary_is(d.summary, input.attempts@.len(), out)
    &&& groups_of(out, false, d.groups_by_category@)
    &&& groups_of(out, true, d.groups_by_owasp@)
    &&& rows_are(d.evidence_rows@, sorted, out, input.triage@)
}

/// Builds the report of a run: counts over the latest verdict of each
/// attempt, groups by category and by OWASP reference, and one evidence
/// row per attempt in order of attempt number.
pub fn build_report_data(input: ReportBuildInput) -> (d: ReportData)
    requires
        input.attempts@.len() <= u32::MAX,
        input.verdicts@.len() <= u32::MAX,
    ensures
        exists|out: Seq<ReportVerdict>, sorted: Seq<ReportAttempt>| report_is(d, input, out, sorted),
{
    let ghost input_copy = input;
    let ReportBuildInput {
        engagement_slug,
        run_id,
        generated_at,
        started_at,
        finished_at,
        judge_model,
        attempts,
        verdicts,
        triage,
    } = input;
    let n_attempts = attempts.len();
    let sorted = sort_attempts(attempts);
    let ghost sorted_view = sorted@;
    let out = latest_verdicts(&verdicts);
    proof {
        lemma_latest_len(verdicts@, out@);
    }
    let summary = summarize(n_attempts, &out);
    let groups_by_category = build_groups(&out, false);
    let groups_by_owasp = build_groups(&out, true);
    let mut rows: Vec<ReportEvidenceRow> = Vec::new();
    let mut rest = sorted;
    let ghost mut done: Seq<ReportAttempt> = seq![];
    while rest.len() > 0
        invariant
            sorted_view == done + rest@,
            strictly_by_seq(out@),
            rows_are(rows@, done, out@, triage@),
        decreases rest@.len(),
    {
        let a = rest.remove(0);
        let v = match find_verdict(&out, a.seq) {
            Some(k) => Some(&out[k]),
            None => None,
        };
        let t = match find_triage(&triage, a.seq) {
            Some(k) => Some(&triage[k]),
            None => None,
        };
        let ghost av = a;
        let row = evidence_row(a, v, t);
        rows.push(row);
        proof {
            done = done.push(av);
        }
    }
    assert(done =~= sorted_view);
    let started = match started_at {
        Some(s) => s,
        None => owned("-"),
    };
    let finished = match finished_at {
        Some(s) => s,
        None => owned("-"),
    };
    let judge = parse_judge_info(
        match &judge_model {
            Some(m) => Some(m.as_str()),
            None => None,
        },
    );
    let d = ReportData {
        engagement_slug,
        run_id,
        generated_at,
        started_at: started,
        finished_at: finished,
        judge,
        summary,
        groups_by_category,
        groups_by_owasp,
        evidence_rows: rows,
    };
    assert(report_is(d, input_copy, out@, sorted_view));
    d
}

proof fn lemma_latest_len(vs: Seq<ReportVerdict>, out: Seq<ReportVerdict>)
    requires
        latest_verdicts_of(vs, out),
    ensures
        out.len() <= vs.len(),
{
    let idx = Seq::new(out.len(), |k: int| choose|i: int| is_latest(vs, i) && #[trigger] vs[i] == out[k]);
    assert forall|k: int| 0 <= k < out.len() implies 0 <= #[trigger] idx[k] < vs.len() && vs[idx[k]].seq == out[k].seq by {
        assert(latest_in(vs, out[k]));
    }
    assert(idx.no_duplicates()) by {
        assert forall|a: int, b: int| 0 <= a < b < idx.len() implies idx[a] != idx[b] by {
            assert(vs[idx[a]].seq == out[a].seq);
            assert(vs[idx[b]].seq == out[b].seq);
        }
    }
    crate::deps::lemma_distinct_indices_bounded(idx, vs.len() as int);
}

// ── Groups partition the judged attempts ─────────────────────────────────────

/// The findings of all groups, counted.
pub open spec fn total_findings(gs: Seq<ReportGroup>) -> nat
    decreases gs.len(),
{
    if gs.len() == 0 {
        0
    } else {
        total_findings(gs.drop_last()) + gs.last().findings_total as nat
    }
}

/// How many verdicts of `out` fall under the first `n` keys.
spec fn members_total(out: Seq<ReportVerdict>, keys: Seq<Seq<char>>, by_owasp: bool, n: int) -> nat
    decreases n,
{
    if n <= 0 {
        0
    } else {
        members_total(out, keys, by_owasp, n - 1) + members(out, keys[n - 1], by_owasp).len()
    }
}

/// How many of the first `n` keys equal `key`.
spec fn key_hits(keys: Seq<Seq<char>>, key: Seq<char>, n: int) -> nat
    decreases n,
{
    if n <= 0 {
        0
    } else {
        key_hits(keys, key, n - 1) + if keys[n - 1] == key {
            1nat
        } else {
            0nat
        }
    }
}

proof fn lemma_members_total_step(out: Seq<ReportVerdict>, keys: Seq<Seq<char>>, by_owasp: bool, n: int)
    requires
        out.len() > 0,
        0 <= n <= keys.len(),
    ensures
        members_total(out, keys, by_owasp, n) == members_total(out.drop_last(), keys, by_owasp, n) + key_hits(
            keys,
            key_of(out.last(), by_owasp),
            n,
        ),
    decreases n,
{
    if n > 0 {
        lemma_members_total_step(out, keys, by_owasp, n - 1);
    }
}

proof fn lemma_key_hits_one(keys: Seq<Seq<char>>, key: Seq<char>, n: int)
    requires
        0 <= n <= keys.len(),
        forall|i: int, j: int| 0 <= i < j < keys.len() ==> keys[i] != keys[j],
    ensures
        key_hits(keys, key, n) <= 1,
        (exists|g: int| 0 <= g < n && keys[g] == key) ==> key_hits(keys, key, n) == 1,
        (forall|g: int| 0 <= g < n ==> keys[g] != key) ==> key_hits(keys, key, n) == 0,
    decreases n,
{
    if n > 0 {
        lemma_key_hits_one(keys, key, n - 1);
        if keys[n - 1] == key {
            assert forall|g: int| 0 <= g < n - 1 implies keys[g] != key by {}
        }
    }
}

spec fn covered(keys: Seq<Seq<char>>, key: Seq<char>) -> bool {
    exists|g: int| 0 <= g < keys.len() && keys[g] == key
}

proof fn lemma_members_total(out: Seq<ReportVerdict>, keys: Seq<Seq<char>>, by_owasp: bool)
    requires
        forall|i: int, j: int| 0 <= i < j < keys.len() ==> keys[i] != keys[j],
        forall|m: int| 0 <= m < out.len() ==> covered(keys, key_of(#[trigger] out[m], by_owasp)),
    ensures
        members_total(out, keys, by_owasp, keys.len() as int) == out.len(),
    decreases out.len(),
{
    if out.len() == 0 {
        assert(out =~= Seq::<ReportVerdict>::empty());
        lemma_members_total_empty(keys, by_owasp, keys.len() as int);
    } else {
        let p = out.drop_last();
        assert forall|m: int| 0 <= m < p.len() implies covered(keys, key_of(#[trigger] p[m], by_owasp)) by {
            assert(p[m] == out[m]);
            assert(covered(keys, key_of(out[m], by_owasp)));
        }
        lemma_members_total(p, keys, by_owasp);
        lemma_members_total_step(out, keys, by_owasp, keys.len() as int);
        let k = key_of(out.last(), by_owasp);
        assert(out.last() == out[out.len() - 1]);
        assert(covered(keys, key_of(out[out.len() - 1], by_owasp)));
        lemma_key_hits_one(keys, k, keys.len() as int);
    }
}

proof fn lemma_members_total_empty(keys: Seq<Seq<char>>, by_owasp: bool, n: int)
    requires
        0 <= n <= keys.len(),
    ensures
        members_total(Seq::<ReportVerdict>::empty(), keys, by_owasp, n) == 0,
    decreases n,
{
    if n > 0 {
        lemma_members_total_empty(keys, by_owasp, n - 1);
    }
}

proof fn lemma_total_is_members_total(out: Seq<ReportVerdict>, by_owasp: bool, gs: Seq<ReportGroup>, n: int)
    requires
        0 <= n <= gs.len(),
        forall|g: int| 0 <= g < gs.len() ==> group_is(#[trigger] gs[g], gs[g].key@, members(out, gs[g].key@, by_owasp)),
    ensures
        total_findings(gs.take(n)) == members_total(out, gs.map_values(|g: ReportGroup| g.key@), by_owasp, n),
    decreases n,
{
    if n > 0 {
        lemma_total_is_members_total(out, by_owasp, gs, n - 1);
        assert(gs.take(n).drop_last() =~= gs.take(n - 1));
        assert(group_is(gs[n - 1], gs[n - 1].key@, members(out, gs[n - 1].key@, by_owasp)));
    }
}

/// The groups of a report partition its judged attempts: every latest
/// verdict is listed in exactly one group, so the groups' finding counts
/// add up to the number of judged attempts.
pub proof fn lemma_groups_partition(out: Seq<ReportVerdict>, by_owasp: bool, gs: Seq<ReportGroup>)
    requires
        groups_of(out, by_owasp, gs),
    ensures
        total_findings(gs) == out.len(),
{
    let keys = gs.map_values(|g: ReportGroup| g.key@);
    assert forall|i: int, j: int| 0 <= i < j < keys.len() implies keys[i] != keys[j] by {
        assert(key_lt(gs[i].key@, gs[j].key@, by_owasp));
        crate::report_keys::lemma_key_order(gs[i].key@, gs[j].key@, gs[j].key@, by_owasp);
    }
    assert forall|m: int| 0 <= m < out.len() implies covered(keys, key_of(#[trigger] out[m], by_owasp)) by {
        assert(has_group(gs, key_of(out[m], by_owasp)));
        let g = choose|g: int| 0 <= g < gs.len() && (#[trigger] gs[g]).key@ == key_of(out[m], by_owasp);
        assert(keys[g] == key_of(out[m], by_owasp));
    }
    lemma_members_total(out, keys, by_owasp);
    lemma_total_is_members_total(out, by_owasp, gs, gs.len() as int);
    assert(gs.take(gs.len() as int) =~= gs);
}

} // verus!
