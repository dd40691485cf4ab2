//! JSON values as the library reads them: request bodies whose strings may
//! hold template markers. Numbers are kept as their JSON text.
use vstd::prelude::*;

use crate::text::{owned, push_str};
use crate::wrappers::{json_quote, json_string};

verus! {

/// A JSON document. Object members keep their order.
#[derive(Debug, PartialEq, Eq)]
pub enum JsonValue {
    Null,
    Bool(bool),
    /// A number, as its JSON text (`3`, `-1.5e3`).
    Number(String),
    Str(String),
    Array(Vec<JsonValue>),
    Object(Vec<(String, JsonValue)>),
}

impl JsonValue {
    /// The string this value holds, if it is a JSON string.
    pub fn as_str(&self) -> (r: Option<&str>)
        ensures
            match self {
                JsonValue::Str(s) => r matches Some(t) && t@ == s@,
                _ => r is None,
            },
    {
        match self {
            JsonValue::Str(s) => Some(s.as_str()),
            _ => None,
        }
    }
}

/// The compact JSON text of a value, as serde_json writes it: no spaces,
/// strings quoted and escaped, numbers as their text.
pub open spec fn json_text(v: JsonValue) -> Seq<char>
    decreases v, 0nat,
{
    match v {
        JsonValue::Null => "null"@,
        JsonValue::Bool(b) => if b {
            "true"@
        } else {
            "false"@
        },
        JsonValue::Number(n) => n@,
        JsonValue::Str(s) => json_string(s@),
        JsonValue::Array(a) => "["@ + items_text(a@, a@.len() as int) + "]"@,
        JsonValue::Object(ms) => "{"@ + members_text(ms@, ms@.len() as int) + "}"@,
    }
}

/// The first `n` items, comma-separated.
pub open spec fn items_text(a: Seq<JsonValue>, n: int) -> Seq<char>
    decreases a, n,
{
    if n <= 0 || n > a.len() {
        seq![]
    } else if n == 1 {
        json_text(a[0])
    } else {
        items_text(a, n - 1) + ","@ + json_text(a[n - 1])
    }
}

/// The first `n` members as `"key":value`, comma-separated.
pub open spec fn members_text(ms: Seq<(String, JsonValue)>, n: int) -> Seq<char>
    decreases ms, n,
{
    if n <= 0 || n > ms.len() {
        seq![]
    } else if n == 1 {
        json_string(ms[0].0@) + ":"@ + json_text(ms[0].1)
    } else {
        members_text(ms, n - 1) + ","@ + json_string(ms[n - 1].0@) + ":"@ + json_text(ms[n - 1].1)
    }
}

/// Writes the compact JSON text of `v` (`serde_json::to_string`).
pub fn to_json_text(v: &JsonValue) -> (r: String)
    ensures
        r@ == json_text(*v),
    decreases v,
{
    match v {
        JsonValue::Null => owned("null"),
        JsonValue::Bool(b) => if *b {
            owned("true")
        } else {
            owned("false")
        },
        JsonValue::Number(n) => n.clone(),
        JsonValue::Str(s) => json_quote(s.as_str()),
        JsonValue::Array(items) => {
            let mut r = owned("[");
            let mut i: usize = 0;
            while i < items.len()
                invariant
                    i <= items@.len(),
                    *v == JsonValue::Array(*items),
                    r@ == "["@ + items_text(items@, i as int),
                decreases items@.len() - i,
            {
                proof {
                    assert((*v)->Array_0 == *items);
                    assert(decreases_to!(*v => (*v)->Array_0));
                    assert(decreases_to!(*items => items@));
                    assert(decreases_to!(items@ => items@[i as int]));
                }
                let t = to_json_text(&items[i]);
                let ghost before = r@;
                if i > 0 {
                    push_str(&mut r, ",");
                }
                push_str(&mut r, t.as_str());
                assert(r@ =~= "["@ + items_text(items@, i + 1));
                i += 1;
            }
            push_str(&mut r, "]");
            r
        },
        JsonValue::Object(ms) => {
            let mut r = owned("{");
            let mut i: usize = 0;
            while i < ms.len()
                invariant
                    i <= ms@.len(),
                    *v == JsonValue::Object(*ms),
                    r@ == "{"@ + members_text(ms@, i as int),
                decreases ms@.len() - i,
            {
                proof {
                    assert((*v)->Object_0 == *ms);
                    assert(decreases_to!(*v => (*v)->Object_0));
                    assert(decreases_to!(*ms => ms@));
                    assert(decreases_to!(ms@ => ms@[i as int]));
                    assert(decreases_to!(ms@[i as int] => ms@[i as int].1));
                }
                let k = json_quote(ms[i].0.as_str());
                let t = to_json_text(&ms[i].1);
                if i > 0 {
                    push_str(&mut r, ",");
                }
                push_str(&mut r, k.as_str());
                push_str(&mut r, ":");
                push_str(&mut r, t.as_str());
                assert(r@ =~= "{"@ + members_text(ms@, i + 1));
                i += 1;
            }
            push_str(&mut r, "}");
            r
        },
    }
}

} // verus!
