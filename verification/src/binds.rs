//! The bind cache: values captured from prerequisite responses, by request
//! id and bind name, and which prerequisites still have to fire.
use vstd::prelude::*;

use crate::deps::{find_request, find_request_exec, Request};
use crate::error::RunnerError;
use crate::extract::{extract, extract_spec};
use crate::template::{groups_view, keys_of, pairs_view, BindCache, Pairs};
use crate::text::{owned, push_str, str_eq};

verus! {

/// Index of the first pair named `name`.
pub open spec fn first_key(ps: Seq<(Seq<char>, Seq<char>)>, name: Seq<char>) -> Option<int>
    decreases ps.len(),
{
    if ps.len() == 0 {
        None
    } else if first_key(ps.drop_last(), name) is Some {
        first_key(ps.drop_last(), name)
    } else if ps.last().0 == name {
        Some(ps.len() - 1)
    } else {
        None
    }
}

/// Index of the first group of request `id`.
pub open spec fn first_group(c: Seq<(Seq<char>, Seq<(Seq<char>, Seq<char>)>)>, id: Seq<char>) -> Option<int>
    decreases c.len(),
{
    if c.len() == 0 {
        None
    } else if first_group(c.drop_last(), id) is Some {
        first_group(c.drop_last(), id)
    } else if c.last().0 == id {
        Some(c.len() - 1)
    } else {
        None
    }
}

/// The value bound under `(id, name)`.
pub open spec fn bound(c: Seq<(Seq<char>, Seq<(Seq<char>, Seq<char>)>)>, id: Seq<char>, name: Seq<char>) -> Option<Seq<char>> {
    match first_group(c, id) {
        None => None,
        Some(g) => match first_key(c[g].1, name) {
            None => None,
            Some(k) => Some(c[g].1[k].1),
        },
    }
}

/// The pairs with `name` set to `value`: the first pair of that name
/// takes the value, or the pair is added.
pub open spec fn pairs_set(ps: Seq<(Seq<char>, Seq<char>)>, name: Seq<char>, value: Seq<char>) -> Seq<(Seq<char>, Seq<char>)> {
    match first_key(ps, name) {
        Some(k) => ps.update(k, (name, value)),
        None => ps.push((name, value)),
    }
}

/// The cache with `(id, name)` bound to `value`.
pub open spec fn cache_set(c: Seq<(Seq<char>, Seq<(Seq<char>, Seq<char>)>)>, id: Seq<char>, name: Seq<char>, value: Seq<char>) -> Seq<(Seq<char>, Seq<(Seq<char>, Seq<char>)>)> {
    match first_group(c, id) {
        Some(g) => c.update(g, (id, pairs_set(c[g].1, name, value))),
        None => c.push((id, seq![(name, value)])),
    }
}

pub(crate) proof fn lemma_first_key(ps: Seq<(Seq<char>, Seq<char>)>, name: Seq<char>)
    ensures
        match first_key(ps, name) {
            Some(k) => 0 <= k < ps.len() && ps[k].0 == name && forall|j: int| 0 <= j < k ==> ps[j].0 != name,
            None => forall|j: int| 0 <= j < ps.len() ==> ps[j].0 != name,
        },
    decreases ps.len(),
{
    if ps.len() > 0 {
        let p = ps.drop_last();
        lemma_first_key(p, name);
        assert forall|j: int| 0 <= j < p.len() implies p[j] == ps[j] by {}
    }
}

/// Setting a name the way a map insert does never adds a second entry of
/// an existing name: pairs whose names are distinct stay so.
pub proof fn lemma_pairs_set_keeps_names_distinct(ps: Seq<(Seq<char>, Seq<char>)>, name: Seq<char>, value: Seq<char>)
    requires
        keys_of(ps).no_duplicates(),
    ensures
        keys_of(pairs_set(ps, name, value)).no_duplicates(),
        pairs_set(ps, name, value).len() == ps.len() + if first_key(ps, name) is Some { 0int } else { 1int },
{
    lemma_first_key(ps, name);
    let out = pairs_set(ps, name, value);
    match first_key(ps, name) {
        Some(k) => {
            assert(keys_of(out) =~= keys_of(ps));
        },
        None => {
            assert(keys_of(out) =~= keys_of(ps).push(name));
            assert forall|i: int, j: int| 0 <= i < keys_of(out).len() && 0 <= j < keys_of(out).len() && i != j implies keys_of(
                out,
            )[i] != keys_of(out)[j] by {
                if i < ps.len() && j < ps.len() {
                    assert(keys_of(out)[i] == keys_of(ps)[i] && keys_of(out)[j] == keys_of(ps)[j]);
                } else if i < ps.len() {
                    assert(keys_of(out)[i] == ps[i].0);
                } else {
                    assert(keys_of(out)[j] == ps[j].0);
                }
            }
        },
    }
}

proof fn lemma_first_group(c: Seq<(Seq<char>, Seq<(Seq<char>, Seq<char>)>)>, id: Seq<char>)
    ensures
        match first_group(c, id) {
            Some(g) => 0 <= g < c.len() && c[g].0 == id && forall|j: int| 0 <= j < g ==> c[j].0 != id,
            None => forall|j: int| 0 <= j < c.len() ==> c[j].0 != id,
        },
    decreases c.len(),
{
    if c.len() > 0 {
        let p = c.drop_last();
        lemma_first_group(p, id);
        assert forall|j: int| 0 <= j < p.len() implies p[j] == c[j] by {}
    }
}

proof fn lemma_first_key_is(ps: Seq<(Seq<char>, Seq<char>)>, name: Seq<char>, k: int)
    requires
        0 <= k < ps.len(),
        ps[k].0 == name,
        forall|j: int| 0 <= j < k ==> ps[j].0 != name,
    ensures
        first_key(ps, name) == Some(k),
    decreases ps.len(),
{
    let p = ps.drop_last();
    assert forall|j: int| 0 <= j < p.len() implies p[j] == ps[j] by {}
    if k < ps.len() - 1 {
        lemma_first_key_is(p, name, k);
    } else {
        lemma_first_key(p, name);
        if let Some(kk) = first_key(p, name) {
            assert(ps[kk].0 == name);
        }
    }
}

proof fn lemma_first_group_is(c: Seq<(Seq<char>, Seq<(Seq<char>, Seq<char>)>)>, id: Seq<char>, g: int)
    requires
        0 <= g < c.len(),
        c[g].0 == id,
        forall|j: int| 0 <= j < g ==> c[j].0 != id,
    ensures
        first_group(c, id) == Some(g),
    decreases c.len(),
{
    let p = c.drop_last();
    assert forall|j: int| 0 <= j < p.len() implies p[j] == c[j] by {}
    if g < c.len() - 1 {
        lemma_first_group_is(p, id, g);
    } else {
        lemma_first_group(p, id);
        if let Some(h) = first_group(p, id) {
            assert(c[h].0 == id);
        }
    }
}

/// Position of the group of request `id` in the cache.
fn find_group(cache: &BindCache, id: &str) -> (r: Option<usize>)
    ensures
        match r {
            Some(g) => first_group(groups_view(cache@), id@) == Some(g as int),
            None => first_group(groups_view(cache@), id@) is None,
        },
{
    let ghost c = groups_view(cache@);
    let mut g: usize = 0;
    while g < cache.len()
        invariant
            g <= cache@.len(),
            c == groups_view(cache@),
            forall|j: int| 0 <= j < g ==> c[j].0 != id@,
        decreases cache@.len() - g,
    {
        if str_eq(cache[g].0.as_str(), id) {
            proof {
                lemma_first_group_is(c, id@, g as int);
            }
            return Some(g);
        }
        g += 1;
    }
    proof {
        lemma_first_group(c, id@);
        if let Some(h) = first_group(c, id@) {
            assert(c[h].0 != id@);
        }
    }
    None
}

/// Position of the first pair named `name`.
pub(crate) fn find_pair(pairs: &Pairs, name: &str) -> (r: Option<usize>)
    ensures
        match r {
            Some(k) => first_key(pairs_view(pairs@), name@) == Some(k as int),
            None => first_key(pairs_view(pairs@), name@) is None,
        },
{
    let ghost ps = pairs_view(pairs@);
    let mut k: usize = 0;
    while k < pairs.len()
        invariant
            k <= pairs@.len(),
            ps == pairs_view(pairs@),
            forall|j: int| 0 <= j < k ==> ps[j].0 != name@,
        decreases pairs@.len() - k,
    {
        if str_eq(pairs[k].0.as_str(), name) {
            proof {
                lemma_first_key_is(ps, name@, k as int);
            }
            return Some(k);
        }
        k += 1;
    }
    proof {
        lemma_first_key(ps, name@);
        if let Some(h) = first_key(ps, name@) {
            assert(ps[h].0 != name@);
        }
    }
    None
}

/// The value bound under `(id, name)`, if any.
pub fn lookup_bind(cache: &BindCache, id: &str, name: &str) -> (r: Option<String>)
    ensures
        match r {
            Some(v) => bound(groups_view(cache@), id@, name@) == Some(v@),
            None => bound(groups_view(cache@), id@, name@) is None,
        },
{
    proof {
        lemma_first_group(groups_view(cache@), id@);
    }
    match find_group(cache, id) {
        None => None,
        Some(g) => {
            let pairs = &cache[g].1;
            proof {
                lemma_first_key(pairs_view(pairs@), name@);
            }
            assert(groups_view(cache@)[g as int].1 == pairs_view(pairs@));
            match find_pair(pairs, name) {
                None => None,
                Some(k) => {
                    let v = pairs[k].1.clone();
                    assert(pairs_view(pairs@)[k as int].1 == pairs@[k as int].1@);
                    Some(v)
                },
            }
        },
    }
}

/// Binds `(id, name)` to `value`, replacing an earlier value.
pub fn bind_insert(cache: &mut BindCache, id: &str, name: &str, value: String)
    ensures
        groups_view(final(cache)@) == cache_set(groups_view(old(cache)@), id@, name@, value@),
{
    let ghost c = groups_view(cache@);
    match find_group(cache, id) {
        Some(g) => {
            proof {
                lemma_first_group(c, id@);
            }
            let mut pairs = crate::template::copy_pairs(&cache[g].1);
            let ghost ps = pairs_view(pairs@);
            assert(ps == c[g as int].1);
            proof {
                lemma_first_key(ps, name@);
            }
            match find_pair(&pairs, name) {
                Some(k) => {
                    pairs.set(k, (owned(name), value));
                },
                None => {
                    pairs.push((owned(name), value));
                },
            }
            assert(pairs_view(pairs@) =~= pairs_set(ps, name@, value@));
            cache.set(g, (owned(id), pairs));
            assert(groups_view(cache@) =~= cache_set(c, id@, name@, value@));
        },
        None => {
            let first: Pairs = vec![(owned(name), value)];
            assert(pairs_view(first@) =~= seq![(name@, value@)]);
            cache.push((owned(id), first));
            assert(groups_view(cache@) =~= cache_set(c, id@, name@, value@));
        },
    }
}


/// The message of a bind whose extraction found nothing.
pub open spec fn no_value_message(id: Seq<char>, name: Seq<char>) -> Seq<char> {
    "Request '"@ + id + "' bound '"@ + name + "' but extract returned no value"@
}

/// What capturing a response does to the cache: `None` leaves it as it
/// was and reports success; otherwise the error message, or the cache
/// after a successful bind.
pub open spec fn capture_spec(
    c: Seq<(Seq<char>, Seq<(Seq<char>, Seq<char>)>)>,
    req: Request,
    body: Seq<u8>,
) -> Result<Seq<(Seq<char>, Seq<(Seq<char>, Seq<char>)>)>, Seq<char>> {
    match req.bind {
        None => Ok(c),
        Some(name) => match extract_spec(body, req.extract) {
            Err(m) => Err(m),
            Ok(None) => Err(no_value_message(req.id@, name@)),
            Ok(Some(v)) => Ok(cache_set(c, req.id@, name@, v)),
        },
    }
}

/// Records the value a request binds, read from its response body. A
/// request without a bind leaves the cache as it is; a bind whose
/// extraction fails, or finds nothing, is an extraction error and leaves
/// the cache as it is.
pub fn capture_bind(req: &Request, body: &[u8], cache: &mut BindCache) -> (r: Result<(), RunnerError>)
    ensures
        match capture_spec(groups_view(old(cache)@), *req, body@) {
            Ok(c) => r is Ok && groups_view(final(cache)@) == c,
            Err(m) => (r matches Err(RunnerError::Extraction { reason }) && reason@ == m)
                && final(cache)@ == old(cache)@,
        },
{
    let name = match &req.bind {
        None => {
            return Ok(());
        },
        Some(name) => name,
    };
    match extract(body, &req.extract) {
        Err(e) => Err(e),
        Ok(None) => {
            let mut reason = owned("Request '");
            push_str(&mut reason, req.id.as_str());
            push_str(&mut reason, "' bound '");
            push_str(&mut reason, name.as_str());
            push_str(&mut reason, "' but extract returned no value");
            Err(RunnerError::Extraction { reason })
        },
        Ok(Some(v)) => {
            bind_insert(cache, req.id.as_str(), name.as_str(), v);
            Ok(())
        },
    }
}

/// The request's bind is already in the cache.
pub open spec fn already_bound(c: Seq<(Seq<char>, Seq<(Seq<char>, Seq<char>)>)>, req: Request) -> bool {
    match req.bind {
        Some(name) => bound(c, req.id@, name@) is Some,
        None => false,
    }
}

/// A request of a chain fires before the target unless it is the target
/// itself or its bind was captured by an earlier attempt.
pub open spec fn fires_before_target(c: Seq<(Seq<char>, Seq<(Seq<char>, Seq<char>)>)>, req: Request, target: Seq<char>) -> bool {
    req.id@ != target && !already_bound(c, req)
}

/// Whether `req`, a member of the chain of `target_id`, must fire as a
/// prerequisite, given what the cache already holds.
pub fn needs_firing(req: &Request, target_id: &str, cache: &BindCache) -> (r: bool)
    ensures
        r == fires_before_target(groups_view(cache@), *req, target_id@),
{
    if str_eq(req.id.as_str(), target_id) {
        return false;
    }
    match &req.bind {
        None => true,
        Some(name) => lookup_bind(cache, req.id.as_str(), name.as_str()).is_none(),
    }
}

/// The request of the registry with id `id` (the first of that id).
pub fn request_by_id<'a>(registry: &'a [Request], id: &str) -> (r: Option<&'a Request>)
    ensures
        match find_request(registry@, id@) {
            Some(j) => r matches Some(x) && *x == registry@[j],
            None => r is None,
        },
{
    match find_request_exec(registry, id) {
        Some(j) => Some(&registry[j]),
        None => None,
    }
}

/// A bound value reads back as written, and the other binds are unchanged.
pub proof fn lemma_bind_read_after_write(
    c: Seq<(Seq<char>, Seq<(Seq<char>, Seq<char>)>)>,
    id: Seq<char>,
    name: Seq<char>,
    value: Seq<char>,
    other_id: Seq<char>,
    other_name: Seq<char>,
)
    ensures
        bound(cache_set(c, id, name, value), id, name) == Some(value),
        (other_id, other_name) != (id, name) ==> bound(cache_set(c, id, name, value), other_id, other_name)
            == bound(c, other_id, other_name),
{
    let c2 = cache_set(c, id, name, value);
    lemma_first_group(c, id);
    lemma_first_group(c, other_id);
    match first_group(c, id) {
        Some(g) => {
            let ps = c[g].1;
            let ps2 = pairs_set(ps, name, value);
            lemma_first_key(ps, name);
            lemma_first_group_is(c2, id, g);
            match first_key(ps, name) {
                Some(k) => {
                    lemma_first_key_is(ps2, name, k);
                },
                None => {
                    lemma_first_key_is(ps2, name, ps.len() as int);
                },
            }
            if other_id == id {
                if other_name != name {
                    lemma_first_key(ps, other_name);
                    lemma_first_key(ps2, other_name);
                    match first_key(ps, other_name) {
                        Some(k) => {
                            lemma_first_key_is(ps2, other_name, k);
                        },
                        None => {
                            if let Some(k2) = first_key(ps2, other_name) {
                                assert(ps2[k2].0 == other_name);
                            }
                        },
                    }
                }
            } else {
                lemma_first_group(c2, other_id);
                match first_group(c, other_id) {
                    Some(h) => {
                        lemma_first_group_is(c2, other_id, h);
                    },
                    None => {
                        if let Some(h2) = first_group(c2, other_id) {
                            assert(c2[h2].0 == other_id);
                        }
                    },
                }
            }
        },
        None => {
            lemma_first_group_is(c2, id, c.len() as int);
            lemma_first_key_is(seq![(name, value)], name, 0);
            if other_id != id {
                lemma_first_group(c2, other_id);
                match first_group(c, other_id) {
                    Some(h) => {
                        lemma_first_group_is(c2, other_id, h);
                    },
                    None => {
                        if let Some(h2) = first_group(c2, other_id) {
                            assert(c2[h2].0 == other_id);
                        }
                    },
                }
            } else {
                lemma_first_key(seq![(name, value)], other_name);
            }
        },
    }
}

} // verus!
