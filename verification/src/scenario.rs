//! Preparing a saved scenario for a run: the checks it must pass and the
//! defaults its steps take.
use vstd::prelude::*;

use crate::run::ScenarioStep;
use crate::text::{decimal_padded, owned, push_padded, push_str, str_eq, strings_view, trim, trimmed};

verus! {

/// Why a scenario cannot run before its target is loaded: no target, or
/// no steps.
pub open spec fn shape_problem(target_id: Seq<char>, steps: nat) -> Option<Seq<char>> {
    if trimmed(target_id).len() == 0 {
        Some("scenario has no target selected"@)
    } else if steps == 0 {
        Some("scenario has no steps"@)
    } else {
        None
    }
}

/// Checks that a scenario names a target and has steps.
pub fn check_scenario_shape(target_id: &str, steps: usize) -> (r: Result<(), String>)
    ensures
        match shape_problem(target_id@, steps as nat) {
            Some(m) => r matches Err(e) && e@ == m,
            None => r is Ok,
        },
{
    let t = trim(target_id);
    if t.as_str().is_empty() {
        Err(owned("scenario has no target selected"))
    } else if steps == 0 {
        Err(owned("scenario has no steps"))
    } else {
        Ok(())
    }
}

/// A step as saved: its id and session may be blank.
#[derive(Debug, Clone)]
pub struct SavedStep {
    pub id: String,
    pub request_id: Option<String>,
    pub prompt_id: Option<String>,
    pub prompt_text: String,
    pub session: String,
}

/// A step names an unknown request when its request id is not blank and
/// not among `known`.
pub open spec fn unknown_request(s: SavedStep, known: Seq<Seq<char>>) -> bool {
    match s.request_id {
        Some(r) => trimmed(r@).len() > 0 && !known.contains(r@),
        None => false,
    }
}

/// The step as it runs: a blank id becomes `step-<n>` (its 1-based
/// position, three digits at least), a blank session becomes `A`.
pub open spec fn step_is(out: ScenarioStep, s: SavedStep, idx: nat) -> bool {
    &&& out.id@ == (if trimmed(s.id@).len() == 0 {
        "step-"@ + decimal_padded(idx + 1, 3)
    } else {
        s.id@
    })
    &&& out.request_id == s.request_id
    &&& out.prompt_id == s.prompt_id
    &&& out.prompt_text == s.prompt_text
    &&& out.session@ == (if trimmed(s.session@).len() == 0 {
        "A"@
    } else {
        s.session@
    })
}

fn known_id(known: &Vec<String>, id: &str) -> (r: bool)
    ensures
        r == strings_view(known@).contains(id@),
{
    let mut i: usize = 0;
    while i < known.len()
        invariant
            i <= known@.len(),
            forall|j: int| 0 <= j < i ==> strings_view(known@)[j] != id@,
        decreases known@.len() - i,
    {
        if str_eq(known[i].as_str(), id) {
            assert(strings_view(known@)[i as int] == id@);
            return true;
        }
        i += 1;
    }
    false
}

fn copy_opt(o: &Option<String>) -> (r: Option<String>)
    ensures
        r == *o,
{
    match o {
        Some(s) => Some(s.clone()),
        None => None,
    }
}

/// The steps of a scenario as they run, or the error naming the first step
/// whose request is unknown.
pub fn prepare_steps(steps: &Vec<SavedStep>, known: &Vec<String>) -> (r: Result<Vec<ScenarioStep>, String>)
    requires
        steps@.len() < u32::MAX,
    ensures
        match r {
            Ok(out) => (forall|i: int| 0 <= i < steps@.len() ==> !unknown_request(#[trigger] steps@[i], strings_view(known@)))
                && out@.len() == steps@.len() && forall|i: int|
                0 <= i < steps@.len() ==> step_is(#[trigger] out@[i], steps@[i], i as nat),
            Err(m) => exists|i: int|
                0 <= i < steps@.len() && unknown_request(#[trigger] steps@[i], strings_view(known@)) && (forall|j: int|
                    0 <= j < i ==> !unknown_request(#[trigger] steps@[j], strings_view(known@))) && m@
                    == "scenario step '"@ + steps@[i].id@ + "' references unknown target request '"@
                    + steps@[i].request_id->Some_0@ + "'"@,
        },
{
    let mut i: usize = 0;
    while i < steps.len()
        invariant
            i <= steps@.len(),
            forall|j: int| 0 <= j < i ==> !unknown_request(#[trigger] steps@[j], strings_view(known@)),
        decreases steps@.len() - i,
    {
        match &steps[i].request_id {
            Some(rid) => {
                let t = trim(rid.as_str());
                if !t.as_str().is_empty() && !known_id(known, rid.as_str()) {
                    let mut m = owned("scenario step '");
                    push_str(&mut m, steps[i].id.as_str());
                    push_str(&mut m, "' references unknown target request '");
                    push_str(&mut m, rid.as_str());
                    push_str(&mut m, "'");
                    assert(unknown_request(steps@[i as int], strings_view(known@)));
                    return Err(m);
                }
            },
            None => {},
        }
        i += 1;
    }
    let mut out: Vec<ScenarioStep> = Vec::new();
    let mut k: usize = 0;
    while k < steps.len()
        invariant
            k <= steps@.len(),
            steps@.len() < u32::MAX,
            out@.len() == k,
            forall|j: int| 0 <= j < k ==> step_is(#[trigger] out@[j], steps@[j], j as nat),
        decreases steps@.len() - k,
    {
        let s = &steps[k];
        let id = if trim(s.id.as_str()).as_str().is_empty() {
            let mut x = owned("step-");
            push_padded(&mut x, (k + 1) as u64, 3);
            x
        } else {
            s.id.clone()
        };
        let session = if trim(s.session.as_str()).as_str().is_empty() {
            owned("A")
        } else {
            s.session.clone()
        };
        out.push(
            ScenarioStep {
                id,
                request_id: copy_opt(&s.request_id),
                prompt_id: copy_opt(&s.prompt_id),
                prompt_text: s.prompt_text.clone(),
                session,
            },
        );
        k += 1;
    }
    Ok(out)
}

/// A scenario repeats at least once.
pub fn scenario_repeat(repeat: u32) -> (r: u32)
    ensures
        r == (if repeat == 0 {
            1
        } else {
            repeat
        }),
{
    if repeat == 0 {
        1
    } else {
        repeat
    }
}

} // verus!
