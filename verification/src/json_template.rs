//! Rendering template markers inside a JSON body while keeping its shape:
//! every string, object keys included, is rendered; numbers, booleans and
//! nulls pass through.
use vstd::prelude::*;

use crate::error::RunnerError;
use crate::json::JsonValue;
use crate::template::{groups_view, pairs_view, render_spec, render_with, BindCache, Pairs};
use crate::report_keys::{key_less, lex_lt};
use crate::text::str_eq;

verus! {

/// Object members as key text and value.
pub open spec fn entries_view(v: Seq<(String, JsonValue)>) -> Seq<(Seq<char>, JsonValue)> {
    v.map_values(|e: (String, JsonValue)| (e.0@, e.1))
}

/// Index of the member named `key`, if any.
pub open spec fn member_index<V>(es: Seq<(Seq<char>, V)>, key: Seq<char>) -> Option<int>
    decreases es.len(),
{
    if es.len() == 0 {
        None
    } else if member_index(es.drop_last(), key) is Some {
        member_index(es.drop_last(), key)
    } else if es.last().0 == key {
        Some(es.len() - 1)
    } else {
        None
    }
}

/// Where a new key goes: before the first member whose key does not sort
/// below it.
pub open spec fn insert_pos<V>(es: Seq<(Seq<char>, V)>, key: Seq<char>) -> int
    decreases es.len(),
{
    if es.len() == 0 {
        0
    } else if lex_lt(es[0].0, key) {
        1 + insert_pos(es.drop_first(), key)
    } else {
        0
    }
}

/// Inserting a member into an object as serde_json's map does, members
/// kept in key order: a key already present takes the new value in its
/// place; a new key goes to its place in key order.
pub open spec fn object_insert<V>(es: Seq<(Seq<char>, V)>, key: Seq<char>, value: V) -> Seq<(Seq<char>, V)> {
    match member_index(es, key) {
        Some(k) => es.update(k, (key, value)),
        None => es.insert(insert_pos(es, key), (key, value)),
    }
}

pub(crate) proof fn lemma_insert_pos_bounds<V>(es: Seq<(Seq<char>, V)>, key: Seq<char>)
    ensures
        0 <= insert_pos(es, key) <= es.len(),
    decreases es.len(),
{
    if es.len() > 0 && lex_lt(es[0].0, key) {
        lemma_insert_pos_bounds(es.drop_first(), key);
    }
}

/// The object built by inserting `rp`'s members one after another.
pub open spec fn insert_all(rp: Seq<(Seq<char>, JsonValue)>) -> Seq<(Seq<char>, JsonValue)>
    decreases rp.len(),
{
    if rp.len() == 0 {
        seq![]
    } else {
        object_insert(insert_all(rp.drop_last()), rp.last().0, rp.last().1)
    }
}

/// `out` is `v` with every string and key rendered (rendering succeeded
/// everywhere). Keys that render to the same text collapse into one
/// member holding the later value.
pub open spec fn json_rendered(
    v: JsonValue,
    out: JsonValue,
    payload: Seq<char>,
    binds: Seq<(Seq<char>, Seq<(Seq<char>, Seq<char>)>)>,
    env: Seq<(Seq<char>, Seq<char>)>,
) -> bool
    decreases v,
{
    match v {
        JsonValue::Str(s) => out matches JsonValue::Str(t) && render_spec(s@, payload, binds, env) == Ok::<
            Seq<char>,
            Seq<char>,
        >(t@),
        JsonValue::Array(a) => out matches JsonValue::Array(b) && b@.len() == a@.len() && forall|i: int|
            0 <= i < a@.len() ==> json_rendered(#[trigger] a@[i], b@[i], payload, binds, env),
        JsonValue::Object(a) => out matches JsonValue::Object(b) && exists|rp: Seq<(Seq<char>, JsonValue)>|
            rendered_members(a@, rp, payload, binds, env) && entries_view(b@) == insert_all(rp),
        JsonValue::Null => out == JsonValue::Null,
        JsonValue::Bool(x) => out == JsonValue::Bool(x),
        JsonValue::Number(n) => out matches JsonValue::Number(m) && m@ == n@,
    }
}

/// `rp` holds each member of `a` with key and value rendered.
pub open spec fn rendered_members(
    a: Seq<(String, JsonValue)>,
    rp: Seq<(Seq<char>, JsonValue)>,
    payload: Seq<char>,
    binds: Seq<(Seq<char>, Seq<(Seq<char>, Seq<char>)>)>,
    env: Seq<(Seq<char>, Seq<char>)>,
) -> bool
    decreases a,
{
    rp.len() == a.len() && forall|i: int|
        0 <= i < a.len() ==> render_spec((#[trigger] a[i]).0@, payload, binds, env) == Ok::<
            Seq<char>,
            Seq<char>,
        >(rp[i].0) && json_rendered(a[i].1, rp[i].1, payload, binds, env)
}

/// Some string or key of `v` fails to render with message `m`.
pub open spec fn json_fails_with(
    v: JsonValue,
    m: Seq<char>,
    payload: Seq<char>,
    binds: Seq<(Seq<char>, Seq<(Seq<char>, Seq<char>)>)>,
    env: Seq<(Seq<char>, Seq<char>)>,
) -> bool
    decreases v,
{
    match v {
        JsonValue::Str(s) => render_spec(s@, payload, binds, env) == Err::<Seq<char>, Seq<char>>(m),
        JsonValue::Array(a) => exists|i: int|
            0 <= i < a@.len() && json_fails_with(#[trigger] a@[i], m, payload, binds, env),
        JsonValue::Object(a) => exists|i: int|
            0 <= i < a@.len() && (render_spec((#[trigger] a@[i]).0@, payload, binds, env) == Err::<
                Seq<char>,
                Seq<char>,
            >(m) || json_fails_with(a@[i].1, m, payload, binds, env)),
        _ => false,
    }
}

pub(crate) proof fn lemma_member_index<V>(es: Seq<(Seq<char>, V)>, key: Seq<char>)
    ensures
        match member_index(es, key) {
            Some(k) => 0 <= k < es.len() && es[k].0 == key && forall|j: int| 0 <= j < k ==> es[j].0 != key,
            None => forall|j: int| 0 <= j < es.len() ==> es[j].0 != key,
        },
    decreases es.len(),
{
    if es.len() > 0 {
        let p = es.drop_last();
        lemma_member_index(p, key);
        assert forall|j: int| 0 <= j < p.len() implies p[j] == es[j] by {}
    }
}

pub(crate) proof fn lemma_member_index_is<V>(es: Seq<(Seq<char>, V)>, key: Seq<char>, k: int)
    requires
        0 <= k < es.len(),
        es[k].0 == key,
        forall|j: int| 0 <= j < k ==> es[j].0 != key,
    ensures
        member_index(es, key) == Some(k),
    decreases es.len(),
{
    let p = es.drop_last();
    assert forall|j: int| 0 <= j < p.len() implies p[j] == es[j] by {}
    if k < es.len() - 1 {
        lemma_member_index_is(p, key, k);
    } else {
        lemma_member_index(p, key);
        if let Some(h) = member_index(p, key) {
            assert(es[h].0 == key);
        }
    }
}

/// Inserts a member as a JSON object (a map) does.
pub(crate) fn insert_member(es: &mut Vec<(String, JsonValue)>, key: String, value: JsonValue)
    ensures
        entries_view(final(es)@) == object_insert(entries_view(old(es)@), key@, value),
{
    let ghost before = entries_view(es@);
    let mut k: usize = 0;
    while k < es.len()
        invariant
            k <= es@.len(),
            before == entries_view(es@),
            before == entries_view(old(es)@),
            forall|j: int| 0 <= j < k ==> before[j].0 != key@,
        decreases es@.len() - k,
    {
        if str_eq(es[k].0.as_str(), key.as_str()) {
            proof {
                lemma_member_index_is(before, key@, k as int);
            }
            es.set(k, (key, value));
            assert(entries_view(es@) =~= object_insert(before, key@, value));
            return;
        }
        k += 1;
    }
    proof {
        lemma_member_index(before, key@);
        if let Some(h) = member_index(before, key@) {
            assert(before[h].0 != key@);
        }
    }
    let mut p: usize = 0;
    assert(before.skip(0) =~= before);
    while p < es.len() && key_less(es[p].0.as_str(), key.as_str(), false)
        invariant
            p <= es@.len(),
            before == entries_view(es@),
            insert_pos(before, key@) == p + insert_pos(before.skip(p as int), key@),
        decreases es@.len() - p,
    {
        proof {
            let t = before.skip(p as int);
            assert(t[0] == before[p as int]);
            assert(t.drop_first() =~= before.skip(p + 1));
        }
        p += 1;
    }
    proof {
        let t = before.skip(p as int);
        if p < es@.len() {
            assert(t[0] == before[p as int]);
        }
        lemma_insert_pos_bounds(before, key@);
    }
    es.insert(p, (key, value));
    assert(entries_view(es@) =~= object_insert(before, key@, value));
}

/// Renders the template markers of every string of `value`, object keys
/// included, with the payload, the bind cache and `env` in scope. The
/// value's shape and its numbers, booleans and nulls are kept. The error,
/// if any, is the one of a string or key that fails to render.
pub fn render_json_value_with(value: &JsonValue, payload: &str, binds: &BindCache, env: &Pairs) -> (r:
    Result<JsonValue, RunnerError>)
    ensures
        match r {
            Ok(out) => json_rendered(*value, out, payload@, groups_view(binds@), pairs_view(env@)),
            Err(RunnerError::Template { message }) => json_fails_with(
                *value,
                message@,
                payload@,
                groups_view(binds@),
                pairs_view(env@),
            ),
            Err(_) => false,
        },
    decreases value,
{
    let ghost b = groups_view(binds@);
    let ghost e = pairs_view(env@);
    match value {
        JsonValue::Str(s) => match render_with(s.as_str(), payload, binds, env) {
            Ok(t) => Ok(JsonValue::Str(t)),
            Err(err) => Err(err),
        },
        JsonValue::Array(items) => {
            let mut out: Vec<JsonValue> = Vec::new();
            let mut i: usize = 0;
            while i < items.len()
                invariant
                    i <= items@.len(),
                    out@.len() == i,
                    b == groups_view(binds@),
                    e == pairs_view(env@),
                    *value == JsonValue::Array(*items),
                    forall|j: int| 0 <= j < i ==> json_rendered(#[trigger] items@[j], out@[j], payload@, b, e),
                decreases items@.len() - i,
            {
                proof {
                    assert((*value)->Array_0 == *items);
                    assert(decreases_to!(*value => (*value)->Array_0));
                    assert(decreases_to!(*items => items@));
                    assert(decreases_to!(items@ => items@[i as int]));
                    assert(decreases_to!(*value => items@[i as int]));
                }
                match render_json_value_with(&items[i], payload, binds, env) {
                    Ok(v) => {
                        out.push(v);
                    },
                    Err(err) => {
                        proof {
                            if let RunnerError::Template { ref message } = err {
                                assert(json_fails_with(items@[i as int], message@, payload@, b, e));
                                assert(0 <= i < items@.len());
                                assert(exists|j: int| 0 <= j < items@.len() && json_fails_with(#[trigger] items@[j], message@, payload@, b, e));
                                assert(json_fails_with(*value, message@, payload@, b, e));
                            }
                        }
                        return Err(err);
                    },
                }
                i += 1;
            }
            Ok(JsonValue::Array(out))
        },
        JsonValue::Object(members) => {
            let mut out: Vec<(String, JsonValue)> = Vec::new();
            let ghost mut rp: Seq<(Seq<char>, JsonValue)> = seq![];
            let mut i: usize = 0;
            while i < members.len()
                invariant
                    i <= members@.len(),
                    rp.len() == i,
                    b == groups_view(binds@),
                    e == pairs_view(env@),
                    *value == JsonValue::Object(*members),
                    forall|j: int|
                        0 <= j < i ==> render_spec((#[trigger] members@[j]).0@, payload@, b, e) == Ok::<
                            Seq<char>,
                            Seq<char>,
                        >(rp[j].0) && json_rendered(members@[j].1, rp[j].1, payload@, b, e),
                    entries_view(out@) == insert_all(rp),
                decreases members@.len() - i,
            {
                let key = match render_with(members[i].0.as_str(), payload, binds, env) {
                    Ok(k) => k,
                    Err(err) => {
                        proof {
                            if let RunnerError::Template { ref message } = err {
                                assert(render_spec(members@[i as int].0@, payload@, b, e) == Err::<
                                    Seq<char>,
                                    Seq<char>,
                                >(message@));
                                assert(json_fails_with(*value, message@, payload@, b, e));
                            }
                        }
                        return Err(err);
                    },
                };
                proof {
                    assert((*value)->Object_0 == *members);
                    assert(decreases_to!(*value => (*value)->Object_0));
                    assert(decreases_to!(*members => members@));
                    assert(decreases_to!(members@ => members@[i as int]));
                    assert(decreases_to!(members@[i as int] => members@[i as int].1));
                    assert(decreases_to!(*value => members@[i as int].1));
                }
                let v = match render_json_value_with(&members[i].1, payload, binds, env) {
                    Ok(v) => v,
                    Err(err) => {
                        proof {
                            if let RunnerError::Template { ref message } = err {
                                assert(json_fails_with(members@[i as int].1, message@, payload@, b, e));
                                assert(json_fails_with(*value, message@, payload@, b, e));
                            }
                        }
                        return Err(err);
                    },
                };
                let ghost entry = (key@, v);
                insert_member(&mut out, key, v);
                proof {
                    assert(rp.push(entry).drop_last() =~= rp);
                    rp = rp.push(entry);
                }
                i += 1;
            }
            assert(rendered_members(members@, rp, payload@, b, e));
            Ok(JsonValue::Object(out))
        },
        JsonValue::Null => Ok(JsonValue::Null),
        JsonValue::Bool(x) => Ok(JsonValue::Bool(*x)),
        JsonValue::Number(n) => Ok(JsonValue::Number(n.clone())),
    }
}

/// `render_json_value_with` with an empty bind cache.
pub fn render_json_value(value: &JsonValue, payload: &str, env: &Pairs) -> (r: Result<JsonValue, RunnerError>)
    ensures
        match r {
            Ok(out) => json_rendered(*value, out, payload@, seq![], pairs_view(env@)),
            Err(RunnerError::Template { message }) => json_fails_with(*value, message@, payload@, seq![], pairs_view(env@)),
            Err(_) => false,
        },
{
    let binds: BindCache = Vec::new();
    assert(groups_view(binds@) =~= seq![]);
    render_json_value_with(value, payload, &binds, env)
}

} // verus!
