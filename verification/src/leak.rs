//! Cross-session canary leaks: which other sessions' canaries surface in a
//! probe response.
use vstd::prelude::*;

use crate::canary::CANARY_PREFIX;
use crate::text::{contains_seq, contains_str, occurs_at, owned};

verus! {

/// The canaries of the sessions other than `probe` that occur in `body`,
/// among the first `n` entries of `canaries`, in their order there.
pub open spec fn leaks_among(
    canaries: Seq<(Seq<char>, Seq<char>)>,
    probe: Seq<char>,
    body: Seq<char>,
    n: int,
) -> Seq<(Seq<char>, Seq<char>)>
    decreases n,
{
    if n <= 0 {
        Seq::empty()
    } else {
        let prev = leaks_among(canaries, probe, body, n - 1);
        let entry = canaries[n - 1];
        if entry.0 != probe && contains_seq(body, entry.1) {
            prev.push(entry)
        } else {
            prev
        }
    }
}

/// What scanning one attempt reports: nothing for a plant-phase attempt,
/// one without a session, or a body that holds no canary prefix at all;
/// otherwise each other session whose canary the body contains.
pub open spec fn scan_spec(
    phase: Option<Seq<char>>,
    session: Option<Seq<char>>,
    body: Seq<char>,
    canaries: Seq<(Seq<char>, Seq<char>)>,
) -> Seq<(Seq<char>, Seq<char>)> {
    if phase == Some("plant"@) || session is None || !contains_seq(body, CANARY_PREFIX@) {
        Seq::empty()
    } else {
        leaks_among(canaries, session->Some_0, body, canaries.len() as int)
    }
}

pub open spec fn pairs_of(v: Seq<(String, String)>) -> Seq<(Seq<char>, Seq<char>)> {
    v.map_values(|p: (String, String)| (p.0@, p.1@))
}

pub open spec fn opt_view(o: Option<&str>) -> Option<Seq<char>> {
    match o {
        Some(s) => Some(s@),
        None => None,
    }
}

/// The leaks one probe attempt shows: pairs of (planted session, canary)
/// for every other session's canary found in the attempt's response body.
/// `phase` absent counts as `any`; plant-phase attempts planted the
/// canaries and are never scanned.
pub fn scan_attempt(
    phase: Option<&str>,
    session: Option<&str>,
    body: &str,
    canaries: &Vec<(String, String)>,
) -> (r: Vec<(String, String)>)
    ensures
        pairs_of(r@) == scan_spec(opt_view(phase), opt_view(session), body@, pairs_of(canaries@)),
{
    let is_plant = match phase {
        Some(p) => crate::text::str_eq(p, "plant"),
        None => false,
    };
    proof {
        reveal_strlit("plant");
    }
    let mut out: Vec<(String, String)> = Vec::new();
    if is_plant {
        assert(opt_view(phase) == Some("plant"@));
        return out;
    }
    let probe = match session {
        Some(s) => s,
        None => {
            return out;
        },
    };
    if !contains_str(body, CANARY_PREFIX) {
        return out;
    }
    let ghost cs = pairs_of(canaries@);
    let mut i: usize = 0;
    while i < canaries.len()
        invariant
            i <= canaries@.len(),
            cs == pairs_of(canaries@),
            pairs_of(out@) == leaks_among(cs, probe@, body@, i as int),
        decreases canaries@.len() - i,
    {
        let planted = &canaries[i].0;
        let canary = &canaries[i].1;
        assert(cs[i as int] == (planted@, canary@));
        if !crate::text::str_eq(planted.as_str(), probe) && contains_str(body, canary.as_str()) {
            out.push((owned(planted.as_str()), owned(canary.as_str())));
        }
        assert(pairs_of(out@) =~= leaks_among(cs, probe@, body@, i + 1));
        i += 1;
    }
    out
}

/// A session's own canary is never reported as a leak, and each reported
/// canary occurs in the probe body.
pub proof fn lemma_leaks_are_foreign_and_present(
    phase: Option<Seq<char>>,
    session: Option<Seq<char>>,
    body: Seq<char>,
    canaries: Seq<(Seq<char>, Seq<char>)>,
    k: int,
)
    requires
        0 <= k < scan_spec(phase, session, body, canaries).len(),
    ensures
        session is Some,
        scan_spec(phase, session, body, canaries)[k].0 != session->Some_0,
        contains_seq(body, scan_spec(phase, session, body, canaries)[k].1),
        canaries.contains(scan_spec(phase, session, body, canaries)[k]),
{
    lemma_leaks_among(canaries, session->Some_0, body, canaries.len() as int);
}

proof fn lemma_leaks_among(canaries: Seq<(Seq<char>, Seq<char>)>, probe: Seq<char>, body: Seq<char>, n: int)
    requires
        n <= canaries.len(),
    ensures
        forall|k: int| 0 <= k < leaks_among(canaries, probe, body, n).len() ==> {
            let e = #[trigger] leaks_among(canaries, probe, body, n)[k];
            e.0 != probe && contains_seq(body, e.1) && canaries.contains(e)
        },
    decreases n,
{
    if n > 0 {
        lemma_leaks_among(canaries, probe, body, n - 1);
        let prev = leaks_among(canaries, probe, body, n - 1);
        let entry = canaries[n - 1];
        assert(canaries.contains(entry)) by {
            assert(canaries[n - 1] == entry);
        }
        if entry.0 != probe && contains_seq(body, entry.1) {
            assert forall|k: int| 0 <= k < prev.len() + 1 implies {
                let e = #[trigger] prev.push(entry)[k];
                e.0 != probe && contains_seq(body, e.1) && canaries.contains(e)
            } by {
                if k < prev.len() {
                    assert(prev.push(entry)[k] == prev[k]);
                }
            }
        }
    }
}

proof fn lemma_leaks_among_complete(
    canaries: Seq<(Seq<char>, Seq<char>)>,
    probe: Seq<char>,
    body: Seq<char>,
    n: int,
    j: int,
)
    requires
        0 <= j < n <= canaries.len(),
        canaries[j].0 != probe,
        contains_seq(body, canaries[j].1),
    ensures
        leaks_among(canaries, probe, body, n).contains(canaries[j]),
    decreases n,
{
    if j < n - 1 {
        lemma_leaks_among_complete(canaries, probe, body, n - 1, j);
        let prev = leaks_among(canaries, probe, body, n - 1);
        let k = choose|k: int| 0 <= k < prev.len() && prev[k] == canaries[j];
        let now = leaks_among(canaries, probe, body, n);
        if now != prev {
            assert(now == prev.push(canaries[n - 1]));
            assert(now[k] == canaries[j]);
        }
    } else {
        let now = leaks_among(canaries, probe, body, n);
        assert(now[now.len() - 1] == canaries[j]);
    }
}

/// Every attempt that is not a plant (a probe, an any-phase attempt, or one
/// with no phase) and has a session reports every other session's canary
/// that its body holds. Canaries carry the canary prefix.
pub proof fn lemma_leaks_are_reported(
    phase: Option<Seq<char>>,
    session: Seq<char>,
    body: Seq<char>,
    canaries: Seq<(Seq<char>, Seq<char>)>,
    planted: Seq<char>,
    canary: Seq<char>,
)
    requires
        phase != Some("plant"@),
        canaries.contains((planted, canary)),
        planted != session,
        canary.len() >= CANARY_PREFIX@.len(),
        canary.take(CANARY_PREFIX@.len() as int) == CANARY_PREFIX@,
        contains_seq(body, canary),
    ensures
        scan_spec(phase, Some(session), body, canaries).contains((planted, canary)),
{
    let i = choose|i: int| occurs_at(body, canary, i);
    let p = CANARY_PREFIX@;
    assert(body.subrange(i, i + p.len()) =~= body.subrange(i, i + canary.len()).take(p.len() as int));
    assert(occurs_at(body, p, i));
    let j = choose|j: int| 0 <= j < canaries.len() && canaries[j] == (planted, canary);
    lemma_leaks_among_complete(canaries, session, body, canaries.len() as int, j);
}

} // verus!
