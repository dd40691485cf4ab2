//! What the run and analysis commands check and fill in before any work
//! starts: the request to run, the payloads and their session, the
//! parallelism, a one-off prompt, and the attempts a judge pass covers.
use vstd::prelude::*;

use crate::pipeline::{parse_result_id, result_id_spec};
use crate::report_keys::{key_less, lemma_lex_asymmetric, lemma_lex_irreflexive, lemma_lex_total, lemma_lex_transitive, lex_lt};
use crate::run::ScenarioStep;
use crate::text::{owned, push_str, str_eq, strings_view, trim, trimmed};

verus! {

// ── Runs ─────────────────────────────────────────────────────────────────────

/// A payload as a run request names it.
#[derive(Debug, Clone)]
pub struct PayloadSpec {
    pub prompt_id: String,
    pub payload_id: String,
    pub text: String,
}

/// A payload as the runner fires it, in a named session.
#[derive(Debug, Clone)]
pub struct Payload {
    pub prompt_id: String,
    pub payload_id: String,
    pub text: String,
    pub session: String,
}

/// The payloads of a single-request run, each in the `default` session.
pub fn run_payloads(specs: &Vec<PayloadSpec>) -> (r: Vec<Payload>)
    ensures
        r@.len() == specs@.len(),
        forall|i: int|
            0 <= i < r@.len() ==> {
                &&& (#[trigger] r@[i]).prompt_id@ == specs@[i].prompt_id@
                &&& r@[i].payload_id@ == specs@[i].payload_id@
                &&& r@[i].text@ == specs@[i].text@
                &&& r@[i].session@ == "default"@
            },
{
    let mut r: Vec<Payload> = Vec::new();
    let mut i: usize = 0;
    while i < specs.len()
        invariant
            i <= specs@.len(),
            r@.len() == i,
            forall|k: int|
                0 <= k < i ==> {
                    &&& (#[trigger] r@[k]).prompt_id@ == specs@[k].prompt_id@
                    &&& r@[k].payload_id@ == specs@[k].payload_id@
                    &&& r@[k].text@ == specs@[k].text@
                    &&& r@[k].session@ == "default"@
                },
        decreases specs@.len() - i,
    {
        r.push(Payload {
            prompt_id: specs[i].prompt_id.clone(),
            payload_id: specs[i].payload_id.clone(),
            text: specs[i].text.clone(),
            session: owned("default"),
        });
        i += 1;
    }
    r
}

/// How many payloads fire at once: as asked, 4 when not given.
pub fn run_parallelism(requested: Option<usize>) -> (r: usize)
    ensures
        r == match requested {
            Some(n) => n,
            None => 4,
        },
{
    match requested {
        Some(n) => n,
        None => 4,
    }
}

/// Finds the request a run fires among the saved request ids: the index of
/// the first with that id, or the error naming it.
pub fn find_run_request(ids: &Vec<String>, request_id: &str) -> (r: Result<usize, String>)
    ensures
        match r {
            Ok(i) => i < ids@.len() && ids@[i as int]@ == request_id@ && forall|k: int|
                0 <= k < i ==> ids@[k]@ != request_id@,
            Err(m) => !strings_view(ids@).contains(request_id@) && m@ == "request '"@ + request_id@
                + "' not found"@,
        },
{
    let mut i: usize = 0;
    while i < ids.len()
        invariant
            i <= ids@.len(),
            forall|k: int| 0 <= k < i ==> ids@[k]@ != request_id@,
        decreases ids@.len() - i,
    {
        if str_eq(ids[i].as_str(), request_id) {
            return Ok(i);
        }
        i += 1;
    }
    assert forall|k: int| 0 <= k < strings_view(ids@).len() implies strings_view(ids@)[k] != request_id@ by {
        assert(strings_view(ids@)[k] == ids@[k]@);
    }
    let mut m = owned("request '");
    push_str(&mut m, request_id);
    push_str(&mut m, "' not found");
    Err(m)
}

/// A one-off prompt must hold more than whitespace.
pub fn check_transient_prompt(prompt_text: &str) -> (r: Result<(), String>)
    ensures
        r is Ok <==> trimmed(prompt_text@).len() > 0,
        r matches Err(m) ==> m@ == "prompt text is empty"@,
{
    let t = trim(prompt_text);
    if t.as_str().is_empty() {
        Err(owned("prompt text is empty"))
    } else {
        Ok(())
    }
}

/// The single step of a one-off scenario run: `step-001`, in session `A`,
/// against the target's own request.
pub fn transient_step(prompt_text: &str, prompt_id: Option<String>) -> (r: ScenarioStep)
    ensures
        r.id@ == "step-001"@,
        r.request_id is None,
        r.prompt_id == prompt_id,
        r.prompt_text@ == prompt_text@,
        r.session@ == "A"@,
{
    ScenarioStep {
        id: owned("step-001"),
        request_id: None,
        prompt_id,
        prompt_text: owned(prompt_text),
        session: owned("A"),
    }
}

// ── Judge targets ────────────────────────────────────────────────────────────

pub type Target = (String, u32);

pub open spec fn targets_view(v: Seq<Target>) -> Seq<(Seq<char>, u32)> {
    v.map_values(|t: Target| (t.0@, t.1))
}

/// The order of judge targets: by run id in string order, then by number.
pub open spec fn target_lt(a: (Seq<char>, u32), b: (Seq<char>, u32)) -> bool {
    lex_lt(a.0, b.0) || (a.0 == b.0 && a.1 < b.1)
}

pub open spec fn strictly_sorted(t: Seq<(Seq<char>, u32)>) -> bool {
    forall|i: int, j: int| 0 <= i < j < t.len() ==> target_lt(#[trigger] t[i], #[trigger] t[j])
}

proof fn lemma_target_order(a: (Seq<char>, u32), b: (Seq<char>, u32), c: (Seq<char>, u32))
    ensures
        !target_lt(a, a),
        a == b || target_lt(a, b) || target_lt(b, a),
        target_lt(a, b) && target_lt(b, c) ==> target_lt(a, c),
        target_lt(a, b) ==> !target_lt(b, a),
{
    lemma_lex_irreflexive(a.0);
    lemma_lex_total(a.0, b.0);
    if lex_lt(a.0, b.0) {
        lemma_lex_asymmetric(a.0, b.0);
    }
    if lex_lt(b.0, a.0) {
        lemma_lex_asymmetric(b.0, a.0);
    }
    if lex_lt(a.0, b.0) && lex_lt(b.0, c.0) {
        lemma_lex_transitive(a.0, b.0, c.0);
    }
}

fn target_less(a: &Target, b: &Target) -> (r: bool)
    ensures
        r == target_lt((a.0@, a.1), (b.0@, b.1)),
{
    key_less(a.0.as_str(), b.0.as_str(), false) || (str_eq(a.0.as_str(), b.0.as_str()) && a.1 < b.1)
}

/// Adds `x` to the strictly sorted `out`, where it is not there already.
fn insert_target(out: &mut Vec<Target>, x: &Target)
    requires
        strictly_sorted(targets_view(old(out)@)),
    ensures
        strictly_sorted(targets_view(final(out)@)),
        forall|y: (Seq<char>, u32)|
            targets_view(final(out)@).contains(y) <==> (targets_view(old(out)@).contains(y) || y == (x.0@, x.1)),
{
    let ghost xv = (x.0@, x.1);
    let ghost o = targets_view(out@);
    let mut p: usize = 0;
    while p < out.len() && target_less(&out[p], x)
        invariant
            p <= out@.len(),
            o == targets_view(out@),
            xv == (x.0@, x.1),
            forall|k: int| 0 <= k < p ==> target_lt(#[trigger] o[k], xv),
        decreases out@.len() - p,
    {
        assert(o[p as int] == (out@[p as int].0@, out@[p as int].1));
        p += 1;
    }
    if p < out.len() && str_eq(out[p].0.as_str(), x.0.as_str()) && out[p].1 == x.1 {
        assert(o[p as int] == xv);
        assert forall|y: (Seq<char>, u32)| o.contains(y) <==> (o.contains(y) || y == xv) by {
            if y == xv {
                assert(o[p as int] == y);
            }
        }
        return;
    }
    out.insert(p, (x.0.clone(), x.1));
    let ghost n = targets_view(out@);
    assert(n =~= o.insert(p as int, xv));
    proof {
        if p < o.len() {
            lemma_target_order(o[p as int], xv, xv);
            assert(target_lt(xv, o[p as int]));
        }
        assert forall|i: int, j: int| 0 <= i < j < n.len() implies target_lt(#[trigger] n[i], #[trigger] n[j]) by {
            if j < p {
                assert(n[i] == o[i] && n[j] == o[j]);
            } else if j == p {
                assert(n[i] == o[i]);
            } else if i < p {
                assert(n[i] == o[i] && n[j] == o[j - 1]);
                lemma_target_order(o[i], xv, o[p as int]);
                if j - 1 > p {
                    lemma_target_order(xv, o[p as int], o[j - 1]);
                    lemma_target_order(o[i], xv, o[j - 1]);
                }
            } else if i == p {
                assert(n[j] == o[j - 1]);
                if j - 1 > p {
                    lemma_target_order(xv, o[p as int], o[j - 1]);
                }
            } else {
                assert(n[i] == o[i - 1] && n[j] == o[j - 1]);
            }
        }
        assert forall|y: (Seq<char>, u32)| n.contains(y) <==> (o.contains(y) || y == xv) by {
            if n.contains(y) {
                let k = choose|k: int| 0 <= k < n.len() && #[trigger] n[k] == y;
                if k < p {
                    assert(o[k] == y);
                } else if k > p {
                    assert(o[k - 1] == y);
                }
            }
            if o.contains(y) {
                let k = choose|k: int| 0 <= k < o.len() && #[trigger] o[k] == y;
                if k < p {
                    assert(n[k] == y);
                } else {
                    assert(n[k + 1] == y);
                }
            }
            if y == xv {
                assert(n[p as int] == y);
            }
        }
    }
}

/// The targets in order, each once.
pub fn sorted_targets(ts: &Vec<Target>) -> (r: Vec<Target>)
    ensures
        strictly_sorted(targets_view(r@)),
        forall|y: (Seq<char>, u32)| targets_view(r@).contains(y) <==> targets_view(ts@).contains(y),
{
    let mut out: Vec<Target> = Vec::new();
    let mut i: usize = 0;
    while i < ts.len()
        invariant
            i <= ts@.len(),
            strictly_sorted(targets_view(out@)),
            forall|y: (Seq<char>, u32)| #[trigger] targets_view(out@).contains(y) <==> targets_view(ts@).take(i as int).contains(y),
        decreases ts@.len() - i,
    {
        let ghost before = targets_view(out@);
        insert_target(&mut out, &ts[i]);
        proof {
            let t = targets_view(ts@);
            assert(t.take(i + 1) =~= t.take(i as int).push(t[i as int]));
            assert forall|y: (Seq<char>, u32)| targets_view(out@).contains(y) <==> t.take(i + 1).contains(y) by {
                if t.take(i + 1).contains(y) && !t.take(i as int).contains(y) {
                    let k = choose|k: int| 0 <= k < i + 1 && #[trigger] t.take(i + 1)[k] == y;
                    if k < i {
                        assert(t.take(i as int)[k] == y);
                    }
                }
                if t.take(i as int).contains(y) {
                    let k = choose|k: int| 0 <= k < i && #[trigger] t.take(i as int)[k] == y;
                    assert(t.take(i + 1)[k] == y);
                }
                if y == t[i as int] {
                    assert(t.take(i + 1)[i as int] == y);
                }
            }
        }
        i += 1;
    }
    assert(targets_view(ts@).take(ts@.len() as int) =~= targets_view(ts@));
    out
}

/// The targets named by result ids, in order; the first id that does not
/// parse decides the error.
pub open spec fn parsed_targets(ids: Seq<Seq<char>>) -> Result<Seq<(Seq<char>, u32)>, Seq<char>>
    decreases ids.len(),
{
    if ids.len() == 0 {
        Ok(seq![])
    } else {
        match parsed_targets(ids.drop_last()) {
            Err(m) => Err(m),
            Ok(done) => match result_id_spec(ids.last()) {
                Err(m) => Err(m),
                Ok(t) => Ok(done.push(t)),
            },
        }
    }
}

/// What a judge pass covers before ordering: the result ids when given,
/// else every attempt of the named run; an error when neither is given or
/// an id does not parse.
pub open spec fn judge_candidates(ids: Seq<Seq<char>>, run_id: Option<Seq<char>>, run_seqs: Seq<u32>) -> Result<
    Seq<(Seq<char>, u32)>,
    Seq<char>,
> {
    if ids.len() == 0 {
        match run_id {
            None => Err("run_id is required when result_ids is empty"@),
            Some(r) => Ok(run_seqs.map_values(|s: u32| (r, s))),
        }
    } else {
        parsed_targets(ids)
    }
}

/// A candidate is kept when no run is named or it belongs to that run.
pub open spec fn kept(t: (Seq<char>, u32), run_id: Option<Seq<char>>) -> bool {
    match run_id {
        Some(r) => t.0 == r,
        None => true,
    }
}

pub open spec fn opt_str(o: Option<&str>) -> Option<Seq<char>> {
    match o {
        Some(s) => Some(s@),
        None => None,
    }
}

proof fn lemma_parsed_targets_error_sticks(ids: Seq<Seq<char>>, n: int)
    requires
        0 < n <= ids.len(),
        parsed_targets(ids.take(n)) is Err,
    ensures
        parsed_targets(ids) == parsed_targets(ids.take(n)),
    decreases ids.len() - n,
{
    if n < ids.len() {
        assert(ids.take(n + 1).drop_last() =~= ids.take(n));
        lemma_parsed_targets_error_sticks(ids, n + 1);
    } else {
        assert(ids.take(n) =~= ids);
    }
}

fn candidate_targets(result_ids: &Vec<String>, run_id: Option<&str>, run_seqs: &Vec<u32>) -> (r: Result<Vec<Target>, String>)
    ensures
        match (r, judge_candidates(strings_view(result_ids@), opt_str(run_id), run_seqs@)) {
            (Ok(v), Ok(c)) => targets_view(v@) == c,
            (Err(m), Err(c)) => m@ == c,
            _ => false,
        },
{
    let ghost ids = strings_view(result_ids@);
    let mut out: Vec<Target> = Vec::new();
    if result_ids.len() == 0 {
        match run_id {
            None => {
                return Err(owned("run_id is required when result_ids is empty"));
            },
            Some(rid) => {
                let mut i: usize = 0;
                while i < run_seqs.len()
                    invariant
                        i <= run_seqs@.len(),
                        targets_view(out@) == run_seqs@.take(i as int).map_values(|s: u32| (rid@, s)),
                    decreases run_seqs@.len() - i,
                {
                    out.push((owned(rid), run_seqs[i]));
                    assert(run_seqs@.take(i + 1).map_values(|s: u32| (rid@, s)) =~= run_seqs@.take(
                        i as int,
                    ).map_values(|s: u32| (rid@, s)).push((rid@, run_seqs@[i as int])));
                    i += 1;
                }
                assert(run_seqs@.take(run_seqs@.len() as int) =~= run_seqs@);
                return Ok(out);
            },
        }
    }
    let mut i: usize = 0;
    assert(ids.take(0) =~= Seq::<Seq<char>>::empty());
    assert(targets_view(out@) =~= Seq::<(Seq<char>, u32)>::empty());
    while i < result_ids.len()
        invariant
            i <= result_ids@.len(),
            ids == strings_view(result_ids@),
            parsed_targets(ids.take(i as int)) == Ok::<Seq<(Seq<char>, u32)>, Seq<char>>(targets_view(out@)),
        decreases result_ids@.len() - i,
    {
        assert(ids.take(i + 1).drop_last() =~= ids.take(i as int));
        assert(ids.take(i + 1).last() == result_ids@[i as int]@);
        match parse_result_id(result_ids[i].as_str()) {
            Ok(t) => {
                let ghost prev = targets_view(out@);
                out.push(t);
                assert(targets_view(out@) =~= prev.push((out@.last().0@, out@.last().1)));
            },
            Err(m) => {
                proof {
                    lemma_parsed_targets_error_sticks(ids, i + 1);
                }
                return Err(m);
            },
        }
        i += 1;
    }
    assert(ids.take(result_ids@.len() as int) =~= ids);
    Ok(out)
}

/// The attempts a judge pass covers: the candidates (see
/// `judge_candidates`), only those of `run_id` when one is named, ordered
/// by run id then number, each once.
pub fn resolve_judge_targets(result_ids: &Vec<String>, run_id: Option<&str>, run_seqs: &Vec<u32>) -> (r: Result<
    Vec<Target>,
    String,
>)
    ensures
        match (r, judge_candidates(strings_view(result_ids@), opt_str(run_id), run_seqs@)) {
            (Ok(v), Ok(c)) => strictly_sorted(targets_view(v@)) && forall|y: (Seq<char>, u32)|
                targets_view(v@).contains(y) <==> (c.contains(y) && kept(y, opt_str(run_id))),
            (Err(m), Err(c)) => m@ == c,
            _ => false,
        },
{
    let cands = match candidate_targets(result_ids, run_id, run_seqs) {
        Ok(c) => c,
        Err(m) => {
            return Err(m);
        },
    };
    let ghost c = targets_view(cands@);
    let mut kept_targets: Vec<Target> = Vec::new();
    let mut i: usize = 0;
    while i < cands.len()
        invariant
            i <= cands@.len(),
            c == targets_view(cands@),
            forall|y: (Seq<char>, u32)|
                #[trigger] targets_view(kept_targets@).contains(y) <==> (c.take(i as int).contains(y) && kept(y, opt_str(run_id))),
        decreases cands@.len() - i,
    {
        let keep = match run_id {
            Some(rid) => str_eq(cands[i].0.as_str(), rid),
            None => true,
        };
        let ghost before = targets_view(kept_targets@);
        if keep {
            kept_targets.push((cands[i].0.clone(), cands[i].1));
        }
        proof {
            let now = targets_view(kept_targets@);
            let ci = c[i as int];
            assert(c.take(i + 1) =~= c.take(i as int).push(ci));
            assert(keep == kept(ci, opt_str(run_id)));
            if keep {
                assert(now =~= before.push(ci));
            } else {
                assert(now =~= before);
            }
            assert forall|y: (Seq<char>, u32)| now.contains(y) <==> (c.take(i + 1).contains(y) && kept(y, opt_str(run_id))) by {
                assert(before.contains(y) <==> (c.take(i as int).contains(y) && kept(y, opt_str(run_id))));
                if now.contains(y) {
                    let k = choose|k: int| 0 <= k < now.len() && #[trigger] now[k] == y;
                    if k < before.len() {
                        assert(before[k] == y);
                        assert(before.contains(y));
                        let j = choose|j: int| 0 <= j < i && #[trigger] c.take(i as int)[j] == y;
                        assert(c.take(i + 1)[j] == y);
                    } else {
                        assert(keep && y == ci);
                        assert(c.take(i + 1)[i as int] == y);
                    }
                }
                if c.take(i + 1).contains(y) && kept(y, opt_str(run_id)) {
                    let k = choose|k: int| 0 <= k < i + 1 && #[trigger] c.take(i + 1)[k] == y;
                    if k < i {
                        assert(c.take(i as int)[k] == y);
                        assert(before.contains(y));
                        let j = choose|j: int| 0 <= j < before.len() && #[trigger] before[j] == y;
                        assert(now[j] == y);
                    } else {
                        assert(y == ci);
                        assert(now[now.len() - 1] == y);
                    }
                }
            }
        }
        i += 1;
    }
    assert(c.take(cands@.len() as int) =~= c);
    Ok(sorted_targets(&kept_targets))
}

} // verus!
