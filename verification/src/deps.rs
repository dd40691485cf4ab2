//! Request dependencies (auth chains).
//!
//! A request can declare a bind (`response.bind: <name>`) naming the value
//! extracted from its response. Other requests reference that bind with
//! `{{<request_id>.<bind_name>}}` in any string field (URL, headers, body).
//! The runner builds a graph from these references, orders it so that
//! prerequisites fire first, and substitutes the bound values into the
//! dependents at fire time. This module is the resolver; it fires nothing.
use vstd::prelude::*;

use crate::error::RunnerError;
use crate::extract::ExtractConfig;
use crate::json::JsonValue;
use crate::text::{
    chars_of, dedup, strings_view, is_ascii_alpha, is_ascii_alnum, owned, push_str, str_eq, string_from_chars,
};
use crate::wrappers::{debug_quote, debug_str};

verus! {

// ── Scanning one template ────────────────────────────────────────────────────

/// Reference to another request's bound value: `{{<request_id>.<bind>}}`.
#[derive(Debug, Clone, PartialEq, Eq)]
pub struct BindRef {
    pub request_id: String,
    pub bind: String,
}

impl View for BindRef {
    type V = (Seq<char>, Seq<char>);

    open spec fn view(&self) -> (Seq<char>, Seq<char>) {
        (self.request_id@, self.bind@)
    }
}

pub open spec fn refs_view(v: Seq<BindRef>) -> Seq<(Seq<char>, Seq<char>)> {
    v.map_values(|r: BindRef| r@)
}

/// Characters that may follow the first letter of a request id or a bind
/// name: ASCII letters and digits, `_` and `-`.
pub open spec fn is_name_char(c: char) -> bool {
    is_ascii_alnum(c) || c == '_' || c == '-'
}

/// End of the run of name characters that starts at `j`.
pub open spec fn name_end(s: Seq<char>, j: int) -> int
    decreases s.len() - j,
{
    if j < 0 || j >= s.len() || !is_name_char(s[j]) {
        j
    } else {
        name_end(s, j + 1)
    }
}

/// The `<id>.<bind>` pair that starts at `p`, if one does, as the end of
/// the id (the position of the dot) and the end of the bind. Both names
/// start with an ASCII letter and run as far as name characters go.
pub open spec fn pair_at(s: Seq<char>, p: int) -> Option<(int, int)> {
    if 0 <= p < s.len() && is_ascii_alpha(s[p]) {
        let dot = name_end(s, p + 1);
        if dot + 1 < s.len() && s[dot] == '.' && is_ascii_alpha(s[dot + 1]) {
            Some((dot, name_end(s, dot + 2)))
        } else {
            None
        }
    } else {
        None
    }
}

/// The `<id>.<bind>` pairs of `s[p..]`, scanning left to right and resuming
/// after each pair; pairs whose id is `prompt` (the payload, not a request)
/// are left out.
pub open spec fn pairs_from(s: Seq<char>, p: int) -> Seq<(Seq<char>, Seq<char>)>
    decreases s.len() - p,
{
    if p < 0 || p >= s.len() {
        seq![]
    } else {
        match pair_at(s, p) {
            Some((dot, end)) => if p < dot < end <= s.len() {
                let id = s.subrange(p, dot);
                let rest = pairs_from(s, end);
                if id == "prompt"@ {
                    rest
                } else {
                    seq![(id, s.subrange(dot + 1, end))] + rest
                }
            } else {
                seq![]
            },
            None => pairs_from(s, p + 1),
        }
    }
}

/// First `}` at or after `j` (or `s.len()`).
pub open spec fn close_brace(s: Seq<char>, j: int) -> int
    decreases s.len() - j,
{
    if j < 0 || j >= s.len() || s[j] == '}' {
        j
    } else {
        close_brace(s, j + 1)
    }
}

/// If a `{{ ... }}` block with no `}` inside starts at `p`, where its body
/// ends (the position of the first closing brace).
pub open spec fn block_at(s: Seq<char>, p: int) -> Option<int> {
    if 0 <= p && p + 1 < s.len() && s[p] == '{' && s[p + 1] == '{' {
        let q = close_brace(s, p + 2);
        if q + 1 < s.len() && s[q + 1] == '}' {
            Some(q)
        } else {
            None
        }
    } else {
        None
    }
}

/// The references in the blocks of `s[p..]`, block by block, left to right.
pub open spec fn refs_from(s: Seq<char>, p: int) -> Seq<(Seq<char>, Seq<char>)>
    decreases s.len() - p,
{
    if p < 0 || p >= s.len() {
        seq![]
    } else {
        match block_at(s, p) {
            Some(q) => if p + 2 <= q && q + 2 > p {
                pairs_from(s.subrange(p + 2, q), 0) + refs_from(s, q + 2)
            } else {
                seq![]
            },
            None => refs_from(s, p + 1),
        }
    }
}

/// The `{{<id>.<bind>}}` references of a template string.
pub open spec fn template_refs(s: Seq<char>) -> Seq<(Seq<char>, Seq<char>)> {
    refs_from(s, 0)
}

proof fn lemma_name_end(s: Seq<char>, j: int)
    requires
        0 <= j <= s.len(),
    ensures
        j <= name_end(s, j) <= s.len(),
        name_end(s, j) < s.len() ==> !is_name_char(s[name_end(s, j)]),
    decreases s.len() - j,
{
    if j < s.len() && is_name_char(s[j]) {
        lemma_name_end(s, j + 1);
    }
}

proof fn lemma_close_brace(s: Seq<char>, j: int)
    requires
        0 <= j <= s.len(),
    ensures
        j <= close_brace(s, j) <= s.len(),
        close_brace(s, j) < s.len() ==> s[close_brace(s, j)] == '}',
    decreases s.len() - j,
{
    if j < s.len() && s[j] != '}' {
        lemma_close_brace(s, j + 1);
    }
}

fn name_char(c: char) -> (r: bool)
    ensures
        r == is_name_char(c),
{
    ('a' <= c && c <= 'z') || ('A' <= c && c <= 'Z') || ('0' <= c && c <= '9') || c == '_' || c
        == '-'
}

fn alpha(c: char) -> (r: bool)
    ensures
        r == is_ascii_alpha(c),
{
    ('a' <= c && c <= 'z') || ('A' <= c && c <= 'Z')
}

fn name_end_exec(v: &Vec<char>, j: usize) -> (k: usize)
    requires
        j <= v.len(),
    ensures
        k == name_end(v@, j as int),
        j <= k <= v.len(),
{
    let mut k = j;
    while k < v.len() && name_char(v[k])
        invariant
            j <= k <= v.len(),
            name_end(v@, k as int) == name_end(v@, j as int),
        decreases v.len() - k,
    {
        k += 1;
    }
    k
}

fn pair_at_exec(v: &Vec<char>, p: usize) -> (r: Option<(usize, usize)>)
    requires
        p < v.len(),
    ensures
        match r {
            Some((dot, end)) => pair_at(v@, p as int) == Some((dot as int, end as int)) && p < dot
                < end <= v.len(),
            None => pair_at(v@, p as int) is None,
        },
{
    if !alpha(v[p]) {
        return None;
    }
    let dot = name_end_exec(v, p + 1);
    if dot < v.len() && v.len() - dot > 1 && v[dot] == '.' && alpha(v[dot + 1]) {
        let end = name_end_exec(v, dot + 2);
        Some((dot, end))
    } else {
        None
    }
}

/// The pairs of a block body, in order, without `prompt.*`.
fn pairs_in(v: &Vec<char>) -> (r: Vec<BindRef>)
    ensures
        refs_view(r@) == pairs_from(v@, 0),
{
    let mut out: Vec<BindRef> = Vec::new();
    let mut p: usize = 0;
    assert(refs_view(out@) =~= seq![]);
    while p < v.len()
        invariant
            p <= v.len(),
            refs_view(out@) + pairs_from(v@, p as int) == pairs_from(v@, 0),
        decreases v.len() - p,
    {
        match pair_at_exec(v, p) {
            Some((dot, end)) => {
                let id = string_from_chars(v, p, dot);
                let bind = string_from_chars(v, dot + 1, end);
                if !str_eq(id.as_str(), "prompt") {
                    let ghost prev = out@;
                    out.push(BindRef { request_id: id, bind });
                    assert(refs_view(out@) =~= refs_view(prev).push(out@.last()@));
                    assert(refs_view(out@) + pairs_from(v@, end as int) =~= refs_view(prev) + (seq![
                        out@.last()@,
                    ] + pairs_from(v@, end as int)));
                }
                p = end;
            },
            None => {
                p += 1;
            },
        }
    }
    assert(refs_view(out@) =~= pairs_from(v@, 0));
    out
}

/// Appends the references of `more` to `out`.
fn append_refs(out: &mut Vec<BindRef>, more: Vec<BindRef>)
    ensures
        refs_view(final(out)@) == refs_view(old(out)@) + refs_view(more@),
{
    let ghost given = more@;
    let mut more = more;
    let ghost orig = *out;
    out.append(&mut more);
    assert(refs_view(out@) =~= refs_view(orig@) + refs_view(given));
}

/// Scans one template string for `{{<id>.<bind>}}` references. Whitespace
/// and filter suffixes inside the braces are tolerated
/// (`{{ login.token | upper }}`); the bare `{{prompt}}` is not a
/// dependency.
pub fn extract_refs_from_template(text: &str) -> (r: Vec<BindRef>)
    ensures
        refs_view(r@) == template_refs(text@),
{
    let v = chars_of(text);
    let mut out: Vec<BindRef> = Vec::new();
    let mut p: usize = 0;
    assert(refs_view(out@) =~= seq![]);
    while p < v.len()
        invariant
            v@ == text@,
            p <= v.len(),
            refs_view(out@) + refs_from(v@, p as int) == refs_from(v@, 0),
        decreases v.len() - p,
    {
        let mut found: Option<usize> = None;
        if v.len() - p > 1 && v[p] == '{' && v[p + 1] == '{' {
            let mut q = p + 2;
            while q < v.len() && v[q] != '}'
                invariant
                    p + 2 <= q <= v.len(),
                    close_brace(v@, q as int) == close_brace(v@, p + 2),
                decreases v.len() - q,
            {
                q += 1;
            }
            if q < v.len() && v.len() - q > 1 && v[q + 1] == '}' {
                found = Some(q);
            }
        }
        proof {
            if v@.len() - p > 1 && v@[p as int] == '{' && v@[p + 1] == '{' {
                lemma_close_brace(v@, p + 2);
            }
        }
        assert(found matches Some(q) ==> block_at(v@, p as int) == Some(q as int));
        assert(found is None ==> block_at(v@, p as int) is None);
        match found {
            Some(q) => {
                let body = {
                    let mut b: Vec<char> = Vec::new();
                    let mut k = p + 2;
                    while k < q
                        invariant
                            p + 2 <= k <= q <= v.len(),
                            b@ == v@.subrange(p + 2, k as int),
                        decreases q - k,
                    {
                        b.push(v[k]);
                        assert(v@.subrange(p + 2, k + 1) =~= v@.subrange(p + 2, k as int).push(
                            v@[k as int],
                        ));
                        k += 1;
                    }
                    b
                };
                let found_refs = pairs_in(&body);
                let ghost prev = out@;
                append_refs(&mut out, found_refs);
                assert(refs_view(out@) + refs_from(v@, q + 2) =~= refs_view(prev) + (pairs_from(
                    v@.subrange(p + 2, q as int),
                    0,
                ) + refs_from(v@, q + 2)));
                p = q + 2;
            },
            None => {
                p += 1;
            },
        }
    }
    assert(refs_view(out@) =~= refs_from(v@, 0));
    out
}

// ── A request's dependencies ─────────────────────────────────────────────────

/// How a request body is sent.
#[derive(Debug, Clone, Copy, PartialEq, Eq, Structural)]
pub enum BodyFormat {
    Json,
    Form,
    Text,
    Raw,
}

/// How a request is sent: a templated REST body, an OpenAI-style chat
/// body, or a raw text body.
#[derive(Debug, Clone, Copy, PartialEq, Eq, Structural)]
pub enum AdapterType {
    CustomRest,
    OpenAiCompat,
    RawHttp,
}

/// How a request authenticates. Each variant names the environment
/// variables that hold its secrets.
#[derive(Debug, Clone, PartialEq, Eq)]
pub enum AuthConfig {
    /// No authentication.
    NoAuth,
    Bearer { token_env: String },
    Basic { user_env: String, password_env: String },
    CustomHeader { header_name: String, value_env: String },
}

/// What the library reads of a saved request: its id, the fields that may
/// hold `{{<id>.<bind>}}` references, its auth and the bind its response
/// declares.
#[derive(Debug)]
pub struct Request {
    pub id: String,
    pub url: String,
    pub headers: Vec<(String, String)>,
    /// How the request authenticates; its secrets live in environment
    /// variables, never in templates.
    pub auth: AuthConfig,
    pub adapter: AdapterType,
    pub body_format: BodyFormat,
    pub body: JsonValue,
    /// How the answer is read from the response.
    pub extract: ExtractConfig,
    /// `response.bind`: the name under which this request's extracted
    /// value is bound, if any.
    pub bind: Option<String>,
}

pub open spec fn option_view(o: Option<String>) -> Option<Seq<char>> {
    match o {
        Some(s) => Some(s@),
        None => None,
    }
}

/// References in a JSON value: its strings are scanned, and so are the
/// keys of its objects (each key before its value).
pub open spec fn json_refs(v: JsonValue) -> Seq<(Seq<char>, Seq<char>)>
    decreases v, 0int,
{
    match v {
        JsonValue::Str(s) => template_refs(s@),
        JsonValue::Array(items) => items_refs(items@),
        JsonValue::Object(entries) => entries_refs(entries@),
        _ => seq![],
    }
}

pub open spec fn items_refs(items: Seq<JsonValue>) -> Seq<(Seq<char>, Seq<char>)>
    decreases items, 1int,
{
    if items.len() == 0 {
        seq![]
    } else {
        items_refs(items.drop_last()) + json_refs(items.last())
    }
}

pub open spec fn entries_refs(entries: Seq<(String, JsonValue)>) -> Seq<(Seq<char>, Seq<char>)>
    decreases entries, 1int,
{
    if entries.len() == 0 {
        seq![]
    } else {
        entries_refs(entries.drop_last()) + template_refs(entries.last().0@) + json_refs(
            entries.last().1,
        )
    }
}

pub open spec fn headers_refs(h: Seq<(String, String)>) -> Seq<(Seq<char>, Seq<char>)>
    decreases h.len(),
{
    if h.len() == 0 {
        seq![]
    } else {
        headers_refs(h.drop_last()) + template_refs(h.last().0@) + template_refs(h.last().1@)
    }
}

/// `s` is one of the strings of `v`: a string value or an object member's
/// name, at any depth.
pub open spec fn occurs_in_json(v: JsonValue, s: Seq<char>) -> bool
    decreases v, 0int,
{
    match v {
        JsonValue::Str(t) => t@ == s,
        JsonValue::Array(items) => occurs_in_items(items@, s),
        JsonValue::Object(entries) => occurs_in_entries(entries@, s),
        _ => false,
    }
}

pub open spec fn occurs_in_items(items: Seq<JsonValue>, s: Seq<char>) -> bool
    decreases items, 1int,
{
    if items.len() == 0 {
        false
    } else {
        occurs_in_items(items.drop_last(), s) || occurs_in_json(items.last(), s)
    }
}

pub open spec fn occurs_in_entries(entries: Seq<(String, JsonValue)>, s: Seq<char>) -> bool
    decreases entries, 1int,
{
    if entries.len() == 0 {
        false
    } else {
        occurs_in_entries(entries.drop_last(), s) || entries.last().0@ == s || occurs_in_json(entries.last().1, s)
    }
}

/// References in the body: all strings of a JSON or form body; for a text
/// or raw body, the body string itself (nothing if it is not a string).
pub open spec fn body_refs(format: BodyFormat, body: JsonValue) -> Seq<(Seq<char>, Seq<char>)> {
    match format {
        BodyFormat::Json | BodyFormat::Form => json_refs(body),
        _ => match body {
            JsonValue::Str(s) => template_refs(s@),
            _ => seq![],
        },
    }
}

/// Every reference of a request, URL first, then each header's name and
/// value, then the body; each distinct reference once, where it first
/// occurs.
pub open spec fn request_refs(r: Request) -> Seq<(Seq<char>, Seq<char>)> {
    dedup(template_refs(r.url@) + headers_refs(r.headers@) + body_refs(r.body_format, r.body))
}

fn scan_json_value(v: &JsonValue) -> (r: Vec<BindRef>)
    ensures
        refs_view(r@) == json_refs(*v),
    decreases v,
{
    let mut out: Vec<BindRef> = Vec::new();
    match v {
        JsonValue::Str(s) => {
            out = extract_refs_from_template(s.as_str());
        },
        JsonValue::Array(items) => {
            let mut i: usize = 0;
            assert(refs_view(out@) =~= seq![]);
            while i < items.len()
                invariant
                    i <= items.len(),
                    refs_view(out@) == items_refs(items@.take(i as int)),
                    *v == JsonValue::Array(*items),
                decreases items.len() - i,
            {
                assert(items@.take(i + 1).drop_last() =~= items@.take(i as int));
                proof {
                    assert(decreases_to!(*v => v->Array_0));
                    assert(v->Array_0 == *items);
                    assert(decreases_to!(*items => items@));
                    assert(decreases_to!(items@ => items@[i as int]));
                }
                let more = scan_json_value(&items[i]);
                append_refs(&mut out, more);
                i += 1;
            }
            assert(items@.take(items.len() as int) =~= items@);
        },
        JsonValue::Object(entries) => {
            let mut i: usize = 0;
            assert(refs_view(out@) =~= seq![]);
            while i < entries.len()
                invariant
                    i <= entries.len(),
                    refs_view(out@) == entries_refs(entries@.take(i as int)),
                    *v == JsonValue::Object(*entries),
                decreases entries.len() - i,
            {
                assert(entries@.take(i + 1).drop_last() =~= entries@.take(i as int));
                let key_refs = extract_refs_from_template(entries[i].0.as_str());
                append_refs(&mut out, key_refs);
                proof {
                    assert(decreases_to!(*v => v->Object_0));
                    assert(v->Object_0 == *entries);
                    assert(decreases_to!(*entries => entries@));
                    assert(decreases_to!(entries@ => entries@[i as int]));
                    assert(decreases_to!(entries@[i as int] => entries@[i as int].1));
                }
                let more = scan_json_value(&entries[i].1);
                append_refs(&mut out, more);
                assert(refs_view(out@) =~= entries_refs(entries@.take(i + 1)));
                i += 1;
            }
            assert(entries@.take(entries.len() as int) =~= entries@);
        },
        _ => {
            assert(refs_view(out@) =~= seq![]);
        },
    }
    out
}

fn same_ref(a: &BindRef, b: &BindRef) -> (r: bool)
    ensures
        r == (a@ == b@),
{
    str_eq(a.request_id.as_str(), b.request_id.as_str()) && str_eq(a.bind.as_str(), b.bind.as_str())
}

fn contains_ref(v: &Vec<BindRef>, x: &BindRef) -> (r: bool)
    ensures
        r == refs_view(v@).contains(x@),
{
    let mut i: usize = 0;
    while i < v.len()
        invariant
            i <= v.len(),
            forall|k: int| 0 <= k < i ==> v@[k]@ != x@,
        decreases v.len() - i,
    {
        if same_ref(&v[i], x) {
            assert(refs_view(v@)[i as int] == x@);
            return true;
        }
        i += 1;
    }
    assert forall|k: int| 0 <= k < refs_view(v@).len() implies refs_view(v@)[k] != x@ by {
        assert(refs_view(v@)[k] == v@[k]@);
    }
    false
}

fn dedup_refs(v: Vec<BindRef>) -> (r: Vec<BindRef>)
    ensures
        refs_view(r@) == dedup(refs_view(v@)),
{
    let mut out: Vec<BindRef> = Vec::new();
    let mut i: usize = 0;
    assert(refs_view(out@) =~= seq![]);
    while i < v.len()
        invariant
            i <= v.len(),
            refs_view(out@) == dedup(refs_view(v@).take(i as int)),
        decreases v.len() - i,
    {
        let ghost pre = refs_view(v@).take(i as int);
        assert(refs_view(v@).take(i + 1).drop_last() =~= pre);
        assert(refs_view(v@).take(i + 1).last() == v@[i as int]@);
        if !contains_ref(&out, &v[i]) {
            let ghost prev = out@;
            out.push(v[i].clone_ref());
            assert(refs_view(out@) =~= refs_view(prev).push(v@[i as int]@));
        }
        i += 1;
    }
    assert(refs_view(v@).take(v.len() as int) =~= refs_view(v@));
    out
}

impl BindRef {
    /// A copy of this reference.
    pub fn clone_ref(&self) -> (r: BindRef)
        ensures
            r@ == self@,
    {
        BindRef { request_id: self.request_id.clone(), bind: self.bind.clone() }
    }
}

/// Every `{{<id>.<bind>}}` reference of a request's substitutable surface:
/// URL, headers (names and values) and body. The same dependency
/// referenced several times is listed once, where it first occurs.
pub fn extract_request_dependencies(req: &Request) -> (r: Vec<BindRef>)
    ensures
        refs_view(r@) == request_refs(*req),
{
    let mut refs = extract_refs_from_template(req.url.as_str());
    let mut i: usize = 0;
    assert(headers_refs(req.headers@.take(0)) =~= seq![]);
    assert(refs_view(refs@) =~= template_refs(req.url@) + headers_refs(req.headers@.take(0)));
    while i < req.headers.len()
        invariant
            i <= req.headers@.len(),
            refs_view(refs@) == template_refs(req.url@) + headers_refs(req.headers@.take(i as int)),
        decreases req.headers@.len() - i,
    {
        assert(req.headers@.take(i + 1).drop_last() =~= req.headers@.take(i as int));
        let name_refs = extract_refs_from_template(req.headers[i].0.as_str());
        append_refs(&mut refs, name_refs);
        let value_refs = extract_refs_from_template(req.headers[i].1.as_str());
        append_refs(&mut refs, value_refs);
        assert(refs_view(refs@) =~= template_refs(req.url@) + headers_refs(req.headers@.take(i + 1)));
        i += 1;
    }
    assert(req.headers@.take(req.headers@.len() as int) =~= req.headers@);
    let body_refs_found = match req.body_format {
        BodyFormat::Json | BodyFormat::Form => scan_json_value(&req.body),
        _ => match req.body.as_str() {
            Some(s) => extract_refs_from_template(s),
            None => {
                let none: Vec<BindRef> = Vec::new();
                assert(refs_view(none@) =~= seq![]);
                none
            },
        },
    };
    append_refs(&mut refs, body_refs_found);
    dedup_refs(refs)
}

// ── The dependency graph ─────────────────────────────────────────────────────

/// Index of the first request of `reg` at or after `i` whose id is `id`.
pub open spec fn find_from(reg: Seq<Request>, id: Seq<char>, i: int) -> Option<int>
    decreases reg.len() - i,
{
    if i < 0 || i >= reg.len() {
        None
    } else if reg[i].id@ == id {
        Some(i)
    } else {
        find_from(reg, id, i + 1)
    }
}

/// The request of the registry with id `id` (the first, should two share it).
pub open spec fn find_request(reg: Seq<Request>, id: Seq<char>) -> Option<int> {
    find_from(reg, id, 0)
}

/// The references of request `i`.
pub open spec fn refs_of(reg: Seq<Request>, i: int) -> Seq<(Seq<char>, Seq<char>)> {
    request_refs(reg[i])
}

/// A reference can be satisfied: its request exists and binds that name.
pub open spec fn ref_ok(reg: Seq<Request>, r: (Seq<char>, Seq<char>)) -> bool {
    match find_request(reg, r.0) {
        Some(j) => option_view(reg[j].bind) == Some(r.1),
        None => false,
    }
}

/// Every reference of request `i` can be satisfied.
pub open spec fn node_ok(reg: Seq<Request>, i: int) -> bool {
    forall|k: int| 0 <= k < refs_of(reg, i).len() ==> ref_ok(reg, #[trigger] refs_of(reg, i)[k])
}

/// Request `i` depends on request `j`: one of its references names `j`.
pub open spec fn depends(reg: Seq<Request>, i: int, j: int) -> bool {
    exists|k: int|
        0 <= k < refs_of(reg, i).len() && find_request(reg, #[trigger] refs_of(reg, i)[k].0) == Some(
            j,
        )
}

/// Each request of `path` depends on the next.
pub open spec fn is_path(reg: Seq<Request>, path: Seq<int>) -> bool {
    &&& path.len() >= 1
    &&& forall|m: int| 0 <= m < path.len() - 1 ==> depends(reg, #[trigger] path[m], path[m + 1])
}

/// The registry indices of the targets, when they all exist.
pub open spec fn roots_of(reg: Seq<Request>, targets: Seq<String>) -> Seq<int> {
    targets.map_values(|t: String| find_request(reg, t@)->Some_0)
}

pub open spec fn targets_resolve(reg: Seq<Request>, targets: Seq<String>) -> bool {
    forall|t: int| 0 <= t < targets.len() ==> find_request(reg, #[trigger] targets[t]@) is Some
}

/// Request `j` is needed by the targets: a path of dependencies leads to
/// it from one of them.
pub open spec fn reachable(reg: Seq<Request>, roots: Seq<int>, j: int) -> bool {
    exists|path: Seq<int>|
        is_path(reg, path) && roots.contains(path[0]) && #[trigger] path.last() == j
}

/// Something the targets need is missing: a target that is not in the
/// registry, or a needed request with a reference to an unknown request
/// or to a bind its producer does not declare.
pub open spec fn closure_broken(reg: Seq<Request>, targets: Seq<String>) -> bool {
    ||| !targets_resolve(reg, targets)
    ||| exists|j: int| reachable(reg, roots_of(reg, targets), j) && !node_ok(reg, j)
}

/// `order` lists each needed request exactly once, and every request after
/// all the requests it depends on.
pub open spec fn is_dependency_order(reg: Seq<Request>, roots: Seq<int>, order: Seq<int>) -> bool {
    &&& order.no_duplicates()
    &&& forall|j: int| order.contains(j) <==> reachable(reg, roots, j)
    &&& forall|a: int, b: int|
        0 <= a < order.len() && 0 <= b < order.len() && depends(reg, order[a], order[b]) ==> b < a
}

/// A non-empty set of needed requests each of which depends on one of the
/// set: a dependency cycle, or requests that wait on one.
pub open spec fn is_dependent_core(reg: Seq<Request>, roots: Seq<int>, core: Seq<int>) -> bool {
    &&& core.len() > 0
    &&& core.no_duplicates()
    &&& forall|a: int| 0 <= a < core.len() ==> reachable(reg, roots, #[trigger] core[a])
    &&& forall|a: int| 0 <= a < core.len() ==> depends_on_one_of(reg, #[trigger] core[a], core)
}

/// Request `i` depends on some request of `set`.
pub open spec fn depends_on_one_of(reg: Seq<Request>, i: int, set: Seq<int>) -> bool {
    exists|b: int| 0 <= b < set.len() && depends(reg, i, #[trigger] set[b])
}

pub open spec fn ids_of(reg: Seq<Request>, order: Seq<int>) -> Seq<Seq<char>> {
    order.map_values(|i: int| reg[i].id@)
}

proof fn lemma_find_from(reg: Seq<Request>, id: Seq<char>, i: int)
    requires
        0 <= i <= reg.len(),
    ensures
        match find_from(reg, id, i) {
            Some(j) => i <= j < reg.len() && reg[j].id@ == id && forall|k: int|
                i <= k < j ==> reg[k].id@ != id,
            None => forall|k: int| i <= k < reg.len() ==> reg[k].id@ != id,
        },
    decreases reg.len() - i,
{
    if i < reg.len() && reg[i].id@ != id {
        lemma_find_from(reg, id, i + 1);
    }
}

/// The first request with id `id`.
pub(crate) fn find_request_exec(reg: &[Request], id: &str) -> (r: Option<usize>)
    ensures
        match r {
            Some(j) => find_request(reg@, id@) == Some(j as int) && j < reg@.len(),
            None => find_request(reg@, id@) is None,
        },
{
    let mut i: usize = 0;
    proof {
        lemma_find_from(reg@, id@, 0);
    }
    while i < reg.len()
        invariant
            i <= reg@.len(),
            find_from(reg@, id@, i as int) == find_request(reg@, id@),
        decreases reg@.len() - i,
    {
        if str_eq(reg[i].id.as_str(), id) {
            return Some(i);
        }
        i += 1;
    }
    None
}

pub(crate) proof fn lemma_distinct_indices_bounded(s: Seq<int>, n: int)
    requires
        s.no_duplicates(),
        0 <= n,
        forall|i: int| 0 <= i < s.len() ==> 0 <= #[trigger] s[i] < n,
    ensures
        s.len() <= n,
{
    s.unique_seq_to_set();
    vstd::set_lib::lemma_int_range(0, n);
    assert forall|x: int| s.to_set().contains(x) implies vstd::set_lib::set_int_range(0, n).contains(
        x,
    ) by {
        assert(s.contains(x));
    }
    vstd::set_lib::lemma_len_subset(s.to_set(), vstd::set_lib::set_int_range(0, n));
}

/// The request that reference `r` resolves to.
pub open spec fn producer(reg: Seq<Request>, r: (Seq<char>, Seq<char>)) -> int {
    find_request(reg, r.0)->Some_0
}

proof fn lemma_find_request(reg: Seq<Request>, id: Seq<char>)
    ensures
        match find_request(reg, id) {
            Some(j) => 0 <= j < reg.len() && reg[j].id@ == id,
            None => forall|k: int| 0 <= k < reg.len() ==> reg[k].id@ != id,
        },
{
    lemma_find_from(reg, id, 0);
}

proof fn lemma_root_reachable(reg: Seq<Request>, roots: Seq<int>, a: int)
    requires
        0 <= a < roots.len(),
    ensures
        reachable(reg, roots, roots[a]),
{
    let path = seq![roots[a]];
    assert(is_path(reg, path));
    assert(roots.contains(path[0]));
    assert(path.last() == roots[a]);
}

proof fn lemma_reach_step(reg: Seq<Request>, roots: Seq<int>, i: int, k: int)
    requires
        reachable(reg, roots, i),
        0 <= k < refs_of(reg, i).len(),
        find_request(reg, refs_of(reg, i)[k].0) is Some,
    ensures
        reachable(reg, roots, producer(reg, refs_of(reg, i)[k])),
        depends(reg, i, producer(reg, refs_of(reg, i)[k])),
{
    let j = producer(reg, refs_of(reg, i)[k]);
    assert(depends(reg, i, j));
    let path = choose|path: Seq<int>| is_path(reg, path) && roots.contains(path[0]) && #[trigger] path.last() == i;
    let longer = path.push(j);
    assert forall|m: int| 0 <= m < longer.len() - 1 implies depends(reg, #[trigger] longer[m], longer[m + 1]) by {
        if m < path.len() - 1 {
            assert(longer[m] == path[m] && longer[m + 1] == path[m + 1]);
        } else {
            assert(longer[m] == i && longer[m + 1] == j);
        }
    }
    assert(is_path(reg, longer));
    assert(longer[0] == path[0]);
    assert(longer.last() == j);
}

/// The requests marked in `marked` include the roots and, with each
/// request, every request it references: so they include every request
/// the roots need.
proof fn lemma_closed_marks_reachable(reg: Seq<Request>, roots: Seq<int>, marked: Seq<bool>, j: int)
    requires
        marked.len() == reg.len(),
        forall|a: int| 0 <= a < roots.len() ==> 0 <= #[trigger] roots[a] < reg.len() && marked[roots[a]],
        forall|i: int, k: int|
            0 <= i < reg.len() && marked[i] && 0 <= k < refs_of(reg, i).len() ==> find_request(
                reg,
                #[trigger] refs_of(reg, i)[k].0,
            ) is Some && marked[producer(reg, refs_of(reg, i)[k])],
        reachable(reg, roots, j),
    ensures
        0 <= j < reg.len() && marked[j],
{
    let path = choose|path: Seq<int>| is_path(reg, path) && roots.contains(path[0]) && #[trigger] path.last() == j;
    lemma_path_marked(reg, roots, marked, path, path.len() - 1);
}

proof fn lemma_path_marked(reg: Seq<Request>, roots: Seq<int>, marked: Seq<bool>, path: Seq<int>, m: int)
    requires
        marked.len() == reg.len(),
        forall|a: int| 0 <= a < roots.len() ==> 0 <= #[trigger] roots[a] < reg.len() && marked[roots[a]],
        forall|i: int, k: int|
            0 <= i < reg.len() && marked[i] && 0 <= k < refs_of(reg, i).len() ==> find_request(
                reg,
                #[trigger] refs_of(reg, i)[k].0,
            ) is Some && marked[producer(reg, refs_of(reg, i)[k])],
        is_path(reg, path),
        roots.contains(path[0]),
        0 <= m < path.len(),
    ensures
        0 <= path[m] < reg.len() && marked[path[m]],
    decreases m,
{
    if m > 0 {
        lemma_path_marked(reg, roots, marked, path, m - 1);
        assert(depends(reg, path[m - 1], path[m]));
        let k = choose|k: int|
            0 <= k < refs_of(reg, path[m - 1]).len() && find_request(
                reg,
                #[trigger] refs_of(reg, path[m - 1])[k].0,
            ) == Some(path[m]);
        lemma_find_request(reg, refs_of(reg, path[m - 1])[k].0);
    }
}

// ── Resolving what the targets need ──────────────────────────────────────────

pub open spec fn msg_unknown_target(id: Seq<char>) -> Seq<char> {
    "dependency references unknown Request '"@ + id + "'"@
}

pub open spec fn msg_unknown_ref(from: Seq<char>, to: Seq<char>) -> Seq<char> {
    "Request '"@ + from + "' references unknown Request '"@ + to + "'"@
}

/// `Option<&str>` as `{:?}` writes it.
pub open spec fn debug_option(o: Option<Seq<char>>) -> Seq<char> {
    match o {
        Some(s) => "Some("@ + debug_str(s) + ")"@,
        None => "None"@,
    }
}

pub open spec fn msg_unbound(
    from: Seq<char>,
    to: Seq<char>,
    bind: Seq<char>,
    declared: Option<Seq<char>>,
) -> Seq<char> {
    "Request '"@ + from + "' references {{"@ + to + "."@ + bind + "}} but Request '"@ + to
        + "' does not bind '"@ + bind + "' (declared: "@ + debug_option(declared) + ")"@
}

/// The message for a reference of request `from` that cannot be satisfied.
pub open spec fn msg_bad_ref(reg: Seq<Request>, from: int, r: (Seq<char>, Seq<char>)) -> Seq<char> {
    match find_request(reg, r.0) {
        None => msg_unknown_ref(reg[from].id@, r.0),
        Some(p) => msg_unbound(reg[from].id@, r.0, r.1, option_view(reg[p].bind)),
    }
}

/// `reason` reports one of the things that make the targets' closure
/// broken.
pub open spec fn reports_broken(reg: Seq<Request>, targets: Seq<String>, reason: Seq<char>) -> bool {
    ||| exists|t: int|
        0 <= t < targets.len() && find_request(reg, #[trigger] targets[t]@) is None && reason
            == msg_unknown_target(targets[t]@)
    ||| targets_resolve(reg, targets) && exists|j: int, k: int|
        reachable(reg, roots_of(reg, targets), j) && 0 <= k < refs_of(reg, j).len() && !ref_ok(
            reg,
            #[trigger] refs_of(reg, j)[k],
        ) && reason == msg_bad_ref(reg, j, refs_of(reg, j)[k])
}

fn unknown_target_error(id: &str) -> (e: RunnerError)
    ensures
        e == (RunnerError::Extraction { reason: e->reason }),
        e->reason@ == msg_unknown_target(id@),
{
    let mut reason = owned("dependency references unknown Request '");
    push_str(&mut reason, id);
    push_str(&mut reason, "'");
    RunnerError::Extraction { reason }
}

fn bad_ref_error(reg: &[Request], from: usize, r: &BindRef, found: Option<usize>) -> (e: RunnerError)
    requires
        from < reg@.len(),
        match found {
            Some(p) => find_request(reg@, r@.0) == Some(p as int) && p < reg@.len(),
            None => find_request(reg@, r@.0) is None,
        },
    ensures
        e == (RunnerError::Extraction { reason: e->reason }),
        e->reason@ == msg_bad_ref(reg@, from as int, r@),
{
    let mut reason = owned("Request '");
    push_str(&mut reason, reg[from].id.as_str());
    match found {
        None => {
            push_str(&mut reason, "' references unknown Request '");
            push_str(&mut reason, r.request_id.as_str());
            push_str(&mut reason, "'");
        },
        Some(p) => {
            push_str(&mut reason, "' references {{");
            push_str(&mut reason, r.request_id.as_str());
            push_str(&mut reason, ".");
            push_str(&mut reason, r.bind.as_str());
            push_str(&mut reason, "}} but Request '");
            push_str(&mut reason, r.request_id.as_str());
            push_str(&mut reason, "' does not bind '");
            push_str(&mut reason, r.bind.as_str());
            push_str(&mut reason, "' (declared: ");
            match &reg[p].bind {
                Some(b) => {
                    push_str(&mut reason, "Some(");
                    let q = debug_quote(b.as_str());
                    push_str(&mut reason, q.as_str());
                    push_str(&mut reason, ")");
                },
                None => {
                    push_str(&mut reason, "None");
                },
            }
            push_str(&mut reason, ")");
        },
    }
    let e = RunnerError::Extraction { reason };
    assert(e->reason@ =~= msg_bad_ref(reg@, from as int, r@));
    e
}

/// The registry indices of the targets, or the error for the first that
/// is not in the registry.
fn resolve_targets(targets: &[String], reg: &[Request]) -> (r: Result<Vec<usize>, RunnerError>)
    ensures
        match r {
            Ok(roots) => targets_resolve(reg@, targets@) && roots@.len() == targets@.len()
                && forall|a: int|
                0 <= a < roots@.len() ==> #[trigger] roots@[a] as int == roots_of(reg@, targets@)[a]
                    && roots@[a] < reg@.len(),
            Err(e) => e == (RunnerError::Extraction { reason: e->reason }) && !targets_resolve(
                reg@,
                targets@,
            ) && reports_broken(reg@, targets@, e->reason@),
        },
{
    let mut roots: Vec<usize> = Vec::new();
    let mut t: usize = 0;
    while t < targets.len()
        invariant
            t <= targets@.len(),
            roots@.len() == t,
            forall|a: int| 0 <= a < t ==> find_request(reg@, #[trigger] targets@[a]@) == Some(
                roots@[a] as int,
            ) && roots@[a] < reg@.len(),
        decreases targets@.len() - t,
    {
        match find_request_exec(reg, targets[t].as_str()) {
            Some(j) => {
                roots.push(j);
            },
            None => {
                let e = unknown_target_error(targets[t].as_str());
                assert(find_request(reg@, targets@[t as int]@) is None);
                return Err(e);
            },
        }
        t += 1;
    }
    Ok(roots)
}

/// Marks every request the targets need; or gives the error for a broken
/// reference met on the way.
fn collect_needed(targets: &[String], reg: &[Request]) -> (r: Result<Vec<bool>, RunnerError>)
    ensures
        match r {
            Ok(needed) => !closure_broken(reg@, targets@) && needed@.len() == reg@.len() && (forall|
                j: int,
            |
                #![trigger reachable(reg@, roots_of(reg@, targets@), j)]
                reachable(reg@, roots_of(reg@, targets@), j) <==> 0 <= j < reg@.len() && needed@[j]),
            Err(e) => e == (RunnerError::Extraction { reason: e->reason }) && closure_broken(
                reg@,
                targets@,
            ) && reports_broken(reg@, targets@, e->reason@),
        },
{
    let roots = match resolve_targets(targets, reg) {
        Ok(roots) => roots,
        Err(e) => {
            return Err(e);
        },
    };
    let ghost rts = roots_of(reg@, targets@);
    let n = reg.len();
    let mut queued: Vec<bool> = Vec::new();
    let mut seen: Vec<bool> = Vec::new();
    while queued.len() < n
        invariant
            queued@.len() <= n,
            seen@.len() == queued@.len(),
            forall|i: int| 0 <= i < queued@.len() ==> !queued@[i] && !seen@[i],
        decreases n - queued@.len(),
    {
        queued.push(false);
        seen.push(false);
    }
    let mut t: usize = 0;
    while t < roots.len()
        invariant
            n == reg@.len(),
            queued@.len() == n,
            t <= roots@.len(),
            rts.len() == roots@.len(),
            forall|a: int| 0 <= a < roots@.len() ==> roots@[a] as int == #[trigger] rts[a] && roots@[a] < n,
            forall|a: int| 0 <= a < t ==> queued@[#[trigger] rts[a]],
            forall|i: int| 0 <= i < n && #[trigger] queued@[i] ==> reachable(reg@, rts, i),
        decreases roots@.len() - t,
    {
        proof {
            lemma_root_reachable(reg@, rts, t as int);
        }
        let ghost old_q = queued@;
        queued.set(roots[t], true);
        assert(queued@[rts[t as int]]);
        assert forall|a: int| 0 <= a < t + 1 implies queued@[#[trigger] rts[a]] by {
            if a < t {
                assert(old_q[rts[a]]);
            }
        }
        t += 1;
    }
    assert forall|a: int| 0 <= a < rts.len() implies 0 <= #[trigger] rts[a] < n && queued@[rts[a]] by {
        assert(roots@[a] as int == rts[a]);
    }
    let mut visited: Vec<usize> = Vec::new();
    loop
        invariant
            n == reg@.len(),
            queued@.len() == n,
            seen@.len() == n,
            targets_resolve(reg@, targets@),
            rts == roots_of(reg@, targets@),
            forall|a: int| 0 <= a < rts.len() ==> 0 <= #[trigger] rts[a] < n && queued@[rts[a]],
            forall|i: int| 0 <= i < n && #[trigger] seen@[i] ==> queued@[i],
            forall|i: int| 0 <= i < n && #[trigger] queued@[i] ==> reachable(reg@, rts, i),
            forall|i: int| 0 <= i < n && #[trigger] seen@[i] ==> node_ok(reg@, i),
            forall|i: int, k: int|
                0 <= i < n && seen@[i] && 0 <= k < refs_of(reg@, i).len() ==> find_request(
                    reg@,
                    #[trigger] refs_of(reg@, i)[k].0,
                ) is Some && queued@[producer(reg@, refs_of(reg@, i)[k])],
            forall|a: int, b: int| 0 <= a < b < visited@.len() ==> visited@[a] != visited@[b],
            forall|a: int| 0 <= a < visited@.len() ==> #[trigger] visited@[a] < n && seen@[visited@[a] as int],
            visited@.len() <= n,
        decreases n - visited@.len(),
    {
        let mut i: usize = 0;
        while i < n && !(queued[i] && !seen[i])
            invariant
                n == queued@.len() == seen@.len(),
                i <= n,
                forall|x: int| 0 <= x < i ==> !(queued@[x] && !seen@[x]),
            decreases n - i,
        {
            i += 1;
        }
        if i == n {
            proof {
                assert forall|i: int| 0 <= i < n && #[trigger] queued@[i] implies seen@[i] by {
                    assert(!(queued@[i] && !seen@[i]));
                }
                assert forall|i: int, k: int|
                    0 <= i < n && seen@[i] && 0 <= k < refs_of(reg@, i).len() implies find_request(
                    reg@,
                    #[trigger] refs_of(reg@, i)[k].0,
                ) is Some && seen@[producer(reg@, refs_of(reg@, i)[k])] by {
                    assert(queued@[producer(reg@, refs_of(reg@, i)[k])]);
                    lemma_find_request(reg@, refs_of(reg@, i)[k].0);
                }
                assert forall|a: int| 0 <= a < rts.len() implies 0 <= #[trigger] rts[a] < n && seen@[rts[a]] by {
                    assert(queued@[rts[a]]);
                }
                assert forall|j: int| #![trigger reachable(reg@, rts, j)]
                    reachable(reg@, rts, j) <==> 0 <= j < n && seen@[j] by {
                    if reachable(reg@, rts, j) {
                        lemma_closed_marks_reachable(reg@, rts, seen@, j);
                    }
                }
            }
            return Ok(seen);
        }
        let j = i;
        let ghost old_visited = visited@;
        seen.set(j, true);
        visited.push(j);
        proof {
            let vi = visited@.map_values(|x: usize| x as int);
            assert forall|a: int, b: int| 0 <= a < vi.len() && 0 <= b < vi.len() && a != b implies vi[a]
                != vi[b] by {
                if a < b {
                    assert(visited@[a] != visited@[b]);
                } else {
                    assert(visited@[b] != visited@[a]);
                }
            }
            lemma_distinct_indices_bounded(vi, n as int);
        }
        let refs = extract_request_dependencies(&reg[j]);
        let ghost rj = refs_of(reg@, j as int);
        let mut k: usize = 0;
        while k < refs.len()
            invariant
                n == reg@.len(),
                queued@.len() == n,
                seen@.len() == n,
                0 <= j < n,
                seen@[j as int],
                queued@[j as int],
                refs_view(refs@) == rj,
                rj == refs_of(reg@, j as int),
                k <= refs@.len(),
                targets_resolve(reg@, targets@),
                rts == roots_of(reg@, targets@),
                reachable(reg@, rts, j as int),
                forall|a: int| 0 <= a < rts.len() ==> 0 <= #[trigger] rts[a] < n && queued@[rts[a]],
                forall|i: int| 0 <= i < n && #[trigger] seen@[i] ==> queued@[i],
                forall|i: int| 0 <= i < n && #[trigger] queued@[i] ==> reachable(reg@, rts, i),
                forall|i: int| 0 <= i < n && i != j && #[trigger] seen@[i] ==> node_ok(reg@, i),
                forall|i: int, k2: int|
                    0 <= i < n && i != j && seen@[i] && 0 <= k2 < refs_of(reg@, i).len() ==> find_request(
                        reg@,
                        #[trigger] refs_of(reg@, i)[k2].0,
                    ) is Some && queued@[producer(reg@, refs_of(reg@, i)[k2])],
                forall|k2: int|
                    0 <= k2 < k ==> ref_ok(reg@, #[trigger] rj[k2]) && queued@[producer(reg@, rj[k2])],
                forall|a: int| 0 <= a < visited@.len() ==> #[trigger] visited@[a] < n && seen@[visited@[a] as int],
            decreases refs@.len() - k,
        {
            let r = &refs[k];
            assert(r@ == rj[k as int]);
            let found = find_request_exec(reg, r.request_id.as_str());
            let ok = match found {
                Some(p) => match &reg[p].bind {
                    Some(b) => str_eq(b.as_str(), r.bind.as_str()),
                    None => false,
                },
                None => false,
            };
            if !ok {
                let e = bad_ref_error(reg, j, r, found);
                proof {
                    assert(!ref_ok(reg@, rj[k as int]));
                    assert(!node_ok(reg@, j as int));
                    assert(reachable(reg@, roots_of(reg@, targets@), j as int) && 0 <= k < refs_of(
                        reg@,
                        j as int,
                    ).len() && !ref_ok(reg@, refs_of(reg@, j as int)[k as int]) && e->reason@
                        == msg_bad_ref(reg@, j as int, refs_of(reg@, j as int)[k as int]));
                }
                return Err(e);
            }
            let p = found.unwrap();
            proof {
                lemma_reach_step(reg@, rts, j as int, k as int);
            }
            let ghost old_q = queued@;
            queued.set(p, true);
            assert(queued@[producer(reg@, rj[k as int])]);
            assert forall|i: int, k2: int|
                0 <= i < n && i != j && seen@[i] && 0 <= k2 < refs_of(reg@, i).len() implies find_request(
                reg@,
                #[trigger] refs_of(reg@, i)[k2].0,
            ) is Some && queued@[producer(reg@, refs_of(reg@, i)[k2])] by {
                assert(old_q[producer(reg@, refs_of(reg@, i)[k2])]);
                lemma_find_request(reg@, refs_of(reg@, i)[k2].0);
            }
            assert forall|k2: int| 0 <= k2 < k + 1 implies ref_ok(reg@, #[trigger] rj[k2]) && queued@[
                producer(reg@, rj[k2])
            ] by {
                if k2 < k {
                    assert(old_q[producer(reg@, rj[k2])]);
                    lemma_find_request(reg@, rj[k2].0);
                }
            }
            assert forall|i: int| 0 <= i < n && #[trigger] seen@[i] implies queued@[i] by {
                assert(old_q[i]);
            }
            assert forall|a: int| 0 <= a < rts.len() implies 0 <= #[trigger] rts[a] < n && queued@[rts[a]] by {
                assert(old_q[rts[a]]);
            }
            k += 1;
        }
        proof {
            assert forall|k2: int| 0 <= k2 < refs_of(reg@, j as int).len() implies ref_ok(
                reg@,
                #[trigger] refs_of(reg@, j as int)[k2],
            ) by {
                assert(rj[k2] == refs_of(reg@, j as int)[k2]);
            }
            assert forall|k2: int| 0 <= k2 < refs_of(reg@, j as int).len() implies find_request(
                reg@,
                #[trigger] refs_of(reg@, j as int)[k2].0,
            ) is Some && queued@[producer(reg@, refs_of(reg@, j as int)[k2])] by {
                assert(rj[k2] == refs_of(reg@, j as int)[k2]);
                assert(ref_ok(reg@, rj[k2]));
            }
        }
    }
}

// ── Ordering what the targets need ───────────────────────────────────────────

/// `lists[i]` holds, for each needed request `i`, the registry index of the
/// request that each of its references names.
pub open spec fn dependency_lists_ok(reg: Seq<Request>, needed: Seq<bool>, lists: Seq<Vec<usize>>) -> bool {
    &&& needed.len() == reg.len()
    &&& lists.len() == reg.len()
    &&& forall|i: int|
        0 <= i < reg.len() && #[trigger] needed[i] ==> lists[i]@.len() == refs_of(reg, i).len()
            && forall|k: int|
            0 <= k < lists[i]@.len() ==> find_request(reg, #[trigger] refs_of(reg, i)[k].0) == Some(
                lists[i]@[k] as int,
            ) && needed[lists[i]@[k] as int]
}

fn dependency_lists(reg: &[Request], needed: &Vec<bool>) -> (lists: Vec<Vec<usize>>)
    requires
        needed@.len() == reg@.len(),
        forall|i: int| 0 <= i < reg@.len() && #[trigger] needed@[i] ==> node_ok(reg@, i),
        forall|i: int, k: int|
            0 <= i < reg@.len() && needed@[i] && 0 <= k < refs_of(reg@, i).len() ==> needed@[producer(
                reg@,
                #[trigger] refs_of(reg@, i)[k],
            )],
    ensures
        dependency_lists_ok(reg@, needed@, lists@),
{
    let n = reg.len();
    let mut lists: Vec<Vec<usize>> = Vec::new();
    while lists.len() < n
        invariant
            n == reg@.len() == needed@.len(),
            lists@.len() <= n,
            forall|i: int| 0 <= i < reg@.len() && #[trigger] needed@[i] ==> node_ok(reg@, i),
            forall|i: int, k: int|
                0 <= i < reg@.len() && needed@[i] && 0 <= k < refs_of(reg@, i).len() ==> needed@[producer(
                    reg@,
                    #[trigger] refs_of(reg@, i)[k],
                )],
            forall|i: int|
                0 <= i < lists@.len() && #[trigger] needed@[i] ==> lists@[i]@.len() == refs_of(reg@, i).len()
                    && forall|k: int|
                    0 <= k < lists@[i]@.len() ==> find_request(reg@, #[trigger] refs_of(reg@, i)[k].0)
                        == Some(lists@[i]@[k] as int) && needed@[lists@[i]@[k] as int],
        decreases n - lists@.len(),
    {
        let i = lists.len();
        let mut row: Vec<usize> = Vec::new();
        if needed[i] {
            let refs = extract_request_dependencies(&reg[i]);
            let mut k: usize = 0;
            while k < refs.len()
                invariant
                    n == reg@.len() == needed@.len(),
                    i < n,
                    needed@[i as int],
                    node_ok(reg@, i as int),
                    refs_view(refs@) == refs_of(reg@, i as int),
                    k <= refs@.len(),
                    row@.len() == k,
                    forall|i2: int, k2: int|
                        0 <= i2 < reg@.len() && needed@[i2] && 0 <= k2 < refs_of(reg@, i2).len() ==> needed@[producer(
                            reg@,
                            #[trigger] refs_of(reg@, i2)[k2],
                        )],
                    forall|k2: int|
                        0 <= k2 < k ==> find_request(reg@, #[trigger] refs_of(reg@, i as int)[k2].0)
                            == Some(row@[k2] as int) && needed@[row@[k2] as int],
                decreases refs@.len() - k,
            {
                assert(refs@[k as int]@ == refs_of(reg@, i as int)[k as int]);
                assert(ref_ok(reg@, refs_of(reg@, i as int)[k as int]));
                let p = find_request_exec(reg, refs[k].request_id.as_str()).unwrap();
                row.push(p);
                k += 1;
            }
        }
        lists.push(row);
    }
    lists
}

/// The requests that are needed and not placed, in increasing order.
fn unplaced_needed(n: usize, needed: &Vec<bool>, placed: &Vec<bool>) -> (core: Vec<usize>)
    requires
        needed@.len() == n,
        placed@.len() == n,
    ensures
        forall|a: int, b: int| 0 <= a < b < core@.len() ==> core@[a] < core@[b],
        forall|a: int| 0 <= a < core@.len() ==> #[trigger] core@[a] < n,
        forall|y: int| 0 <= y < n ==> (needed@[y] && !placed@[y] <==> core@.contains(y as usize)),
{
    let mut core: Vec<usize> = Vec::new();
    let mut x: usize = 0;
    while x < n
        invariant
            needed@.len() == n,
            placed@.len() == n,
            x <= n,
            forall|a: int, b: int| 0 <= a < b < core@.len() ==> core@[a] < core@[b],
            forall|a: int| 0 <= a < core@.len() ==> #[trigger] core@[a] < x,
            forall|y: int| 0 <= y < x ==> (needed@[y] && !placed@[y] <==> core@.contains(y as usize)),
        decreases n - x,
    {
        let ghost old_core = core@;
        if needed[x] && !placed[x] {
            core.push(x);
            proof {
                broadcast use vstd::seq_lib::lemma_seq_contains_after_push;

                assert forall|y: int| 0 <= y < x + 1 implies (needed@[y] && !placed@[y]
                    <==> core@.contains(y as usize)) by {
                    if y < x && core@.contains(y as usize) {
                        let w = choose|w: int| 0 <= w < core@.len() && core@[w] == y as usize;
                        assert(w < old_core.len());
                        assert(old_core[w] == y as usize);
                    }
                    if y == x {
                        assert(core@[core@.len() - 1] == x);
                    }
                }
            }
        } else {
            proof {
                assert(!core@.contains(x));
            }
        }
        x += 1;
    }
    core
}

/// `x` stands at some position before `a` in `order`.
pub open spec fn placed_before(order: Seq<usize>, a: int, x: usize) -> bool {
    exists|b: int| 0 <= b < a && order[b] == x
}

/// Every reference of a needed request leads to a needed request.
pub open spec fn lists_closed(n: int, needed: Seq<bool>, lists: Seq<Vec<usize>>) -> bool {
    &&& needed.len() == n
    &&& lists.len() == n
    &&& forall|i: int, k: int|
        0 <= i < n && needed[i] && 0 <= k < lists[i]@.len() ==> #[trigger] lists[i]@[k] < n
            && needed[lists[i]@[k] as int]
}

/// `order` lists the placed requests, each once, each after every request
/// it depends on.
pub open spec fn order_state(
    n: int,
    needed: Seq<bool>,
    lists: Seq<Vec<usize>>,
    placed: Seq<bool>,
    order: Seq<usize>,
) -> bool {
    &&& placed.len() == n
    &&& forall|i: int| 0 <= i < n && #[trigger] placed[i] ==> needed[i]
    &&& forall|i: int| 0 <= i < n ==> (#[trigger] placed[i] <==> order.contains(i as usize))
    &&& forall|a: int, b: int| 0 <= a < b < order.len() ==> order[a] != order[b]
    &&& forall|a: int| 0 <= a < order.len() ==> #[trigger] order[a] < n
    &&& order.len() <= n
    &&& forall|a: int, k: int|
        0 <= a < order.len() && 0 <= k < lists[order[a] as int]@.len() ==> placed_before(
            order,
            a,
            #[trigger] lists[order[a] as int]@[k],
        )
}

/// No needed request is left that could be placed.
pub open spec fn stuck(n: int, needed: Seq<bool>, lists: Seq<Vec<usize>>, placed: Seq<bool>) -> bool {
    forall|x: int|
        0 <= x < n && needed[x] && !placed[x] ==> exists|k: int|
            0 <= k < lists[x]@.len() && !placed[#[trigger] lists[x]@[k] as int]
}

/// Places request `i`, all of whose dependencies are placed.
fn place(
    n: usize,
    needed: &Vec<bool>,
    lists: &Vec<Vec<usize>>,
    placed: &mut Vec<bool>,
    order: &mut Vec<usize>,
    i: usize,
)
    requires
        lists_closed(n as int, needed@, lists@),
        order_state(n as int, needed@, lists@, old(placed)@, old(order)@),
        i < n,
        needed@[i as int],
        !old(placed)@[i as int],
        forall|k: int| 0 <= k < lists@[i as int]@.len() ==> old(placed)@[#[trigger] lists@[i as int]@[k] as int],
    ensures
        order_state(n as int, needed@, lists@, final(placed)@, final(order)@),
        final(order)@ == old(order)@.push(i),
{
    let ghost old_order = order@;
    let ghost pos = order@.len() as int;
    let ghost row = lists@[i as int]@;
    proof {
        assert forall|k2: int| 0 <= k2 < row.len() implies placed_before(order@, pos, #[trigger] row[k2]) by {
            assert(placed@[row[k2] as int]);
            assert(order@.contains(row[k2]));
            let w = choose|w: int| 0 <= w < order@.len() && order@[w] == row[k2];
            assert(0 <= w < pos && order@[w] == row[k2]);
        }
    }
    order.push(i);
    placed.set(i, true);
    proof {
        broadcast use vstd::seq_lib::lemma_seq_contains_after_push;

        assert(order@[pos] == i);
        assert(!old_order.contains(i));
        assert forall|i2: int| 0 <= i2 < n implies (#[trigger] placed@[i2] <==> order@.contains(
            i2 as usize,
        )) by {
            if i2 != i {
                if order@.contains(i2 as usize) {
                    let w = choose|w: int| 0 <= w < order@.len() && order@[w] == i2 as usize;
                    assert(w < pos);
                    assert(old_order[w] == i2 as usize);
                }
            }
        }
        assert forall|a: int, b: int| 0 <= a < b < order@.len() implies order@[a] != order@[b] by {
            if b == pos {
                assert(old_order.contains(old_order[a]));
            } else {
                assert(old_order[a] != old_order[b]);
            }
        }
        assert forall|a: int, k2: int|
            0 <= a < order@.len() && 0 <= k2 < lists@[order@[a] as int]@.len() implies placed_before(
            order@,
            a,
            #[trigger] lists@[order@[a] as int]@[k2],
        ) by {
            let x = lists@[order@[a] as int]@[k2];
            if a < pos {
                assert(order@[a] == old_order[a]);
                assert(placed_before(old_order, a, x));
                let b = choose|b: int| 0 <= b < a && old_order[b] == x;
                assert(order@[b] == old_order[b]);
            } else {
                assert(x == row[k2]);
                assert(placed_before(old_order, pos, x));
                let b = choose|b: int| 0 <= b < pos && old_order[b] == x;
                assert(order@[b] == old_order[b]);
            }
        }
        let oi = order@.map_values(|x: usize| x as int);
        assert forall|a: int, b: int| 0 <= a < oi.len() && 0 <= b < oi.len() && a != b implies oi[a]
            != oi[b] by {
            if a < b {
                assert(order@[a] != order@[b]);
            } else {
                assert(order@[b] != order@[a]);
            }
        }
        lemma_distinct_indices_bounded(oi, n as int);
    }
}

/// One pass over the requests, placing each needed request whose
/// dependencies are all placed. Without progress, nothing more can be
/// placed.
fn place_pass(n: usize, needed: &Vec<bool>, lists: &Vec<Vec<usize>>, placed: &mut Vec<bool>, order: &mut Vec<usize>) -> (progress: bool)
    requires
        lists_closed(n as int, needed@, lists@),
        order_state(n as int, needed@, lists@, old(placed)@, old(order)@),
    ensures
        order_state(n as int, needed@, lists@, final(placed)@, final(order)@),
        progress ==> final(order)@.len() > old(order)@.len(),
        !progress ==> final(order)@ == old(order)@ && stuck(n as int, needed@, lists@, final(placed)@),
{
    let ghost start = order@;
    let mut progress = false;
    let mut i: usize = 0;
    while i < n
        invariant
            i <= n,
            lists_closed(n as int, needed@, lists@),
            order_state(n as int, needed@, lists@, placed@, order@),
            progress ==> order@.len() > start.len(),
            !progress ==> order@ == start,
            !progress ==> forall|x: int|
                0 <= x < i && needed@[x] && !placed@[x] ==> exists|k: int|
                    0 <= k < lists@[x]@.len() && !placed@[#[trigger] lists@[x]@[k] as int],
        decreases n - i,
    {
        if needed[i] && !placed[i] {
            let row = &lists[i];
            let mut k: usize = 0;
            while k < row.len() && placed[row[k]]
                invariant
                    lists_closed(n as int, needed@, lists@),
                    placed@.len() == n,
                    i < n,
                    needed@[i as int],
                    *row == lists@[i as int],
                    k <= row@.len(),
                    forall|k2: int| 0 <= k2 < k ==> placed@[#[trigger] row@[k2] as int],
                decreases row@.len() - k,
            {
                k += 1;
            }
            if k == row.len() {
                place(n, needed, lists, placed, order, i);
                progress = true;
            } else {
                proof {
                    assert(!placed@[row@[k as int] as int]);
                    assert(lists@[i as int]@[k as int] == row@[k as int]);
                }
            }
        }
        i += 1;
    }
    progress
}

/// The outcome once nothing more can be placed: the order when every
/// needed request is in it, else the needed requests left out.
fn conclude(n: usize, needed: &Vec<bool>, lists: &Vec<Vec<usize>>, placed: &Vec<bool>, order: Vec<usize>) -> (r: Result<Vec<usize>, Vec<usize>>)
    requires
        lists_closed(n as int, needed@, lists@),
        order_state(n as int, needed@, lists@, placed@, order@),
        stuck(n as int, needed@, lists@, placed@),
    ensures
        match r {
            Ok(o) => o@ == order@ && forall|j: int| 0 <= j < n ==> (needed@[j] <==> o@.contains(j as usize)),
            Err(core) => is_index_core(n as int, needed@, lists@, core@),
        },
{
    let core = unplaced_needed(n, needed, placed);
    if core.len() == 0 {
        proof {
            assert forall|j: int| 0 <= j < n implies (needed@[j] <==> order@.contains(j as usize)) by {
                if needed@[j] && !placed@[j] {
                    assert(core@.contains(j as usize));
                    assert(false);
                }
                if order@.contains(j as usize) {
                    assert(placed@[j]);
                }
            }
        }
        return Ok(order);
    }
    proof {
        lemma_unplaced_form_core(n as int, needed@, lists@, placed@, core@);
    }
    Err(core)
}

proof fn lemma_unplaced_form_core(
    n: int,
    needed: Seq<bool>,
    lists: Seq<Vec<usize>>,
    placed: Seq<bool>,
    core: Seq<usize>,
)
    requires
        lists_closed(n, needed, lists),
        placed.len() == n,
        stuck(n, needed, lists, placed),
        core.len() > 0,
        forall|a: int, b: int| 0 <= a < b < core.len() ==> core[a] < core[b],
        forall|a: int| 0 <= a < core.len() ==> #[trigger] core[a] < n,
        forall|y: int| 0 <= y < n ==> (needed[y] && !placed[y] <==> core.contains(y as usize)),
    ensures
        is_index_core(n, needed, lists, core),
{
    assert forall|a: int| 0 <= a < core.len() implies waits_in(lists, core, #[trigger] core[a]) by {
        let c = core[a];
        let y = c as int;
        assert(core.contains(c));
        assert(core.contains(y as usize));
        assert(needed[y] && !placed[y]);
        let k = choose|k: int| 0 <= k < lists[y]@.len() && !placed[#[trigger] lists[y]@[k] as int];
        assert(lists[y]@[k] < n);
        assert(core.contains(lists[y]@[k]));
    }
    assert forall|a: int| 0 <= a < core.len() implies #[trigger] core[a] < n && needed[core[a] as int] by {
        let c = core[a];
        assert(core.contains(c));
        assert(core.contains((c as int) as usize));
    }
    assert forall|a: int, b: int| 0 <= a < b < core.len() implies core[a] != core[b] by {
        assert(core[a] < core[b]);
    }
}

/// Needed requests, each waiting on one of them.
pub open spec fn is_index_core(n: int, needed: Seq<bool>, lists: Seq<Vec<usize>>, core: Seq<usize>) -> bool {
    &&& core.len() > 0
    &&& forall|a: int, b: int| 0 <= a < b < core.len() ==> core[a] != core[b]
    &&& forall|a: int| 0 <= a < core.len() ==> #[trigger] core[a] < n && needed[core[a] as int]
    &&& forall|a: int| 0 <= a < core.len() ==> waits_in(lists, core, #[trigger] core[a])
}

/// Request `x` references a request of `core`.
pub open spec fn waits_in(lists: Seq<Vec<usize>>, core: Seq<usize>, x: usize) -> bool {
    exists|k: int| 0 <= k < lists[x as int]@.len() && core.contains(#[trigger] lists[x as int]@[k])
}

/// The needed requests ordered so that each comes after the requests it
/// depends on (`Ok`); or, when no such order exists, the needed requests
/// that could not be placed (`Err`), each of which waits on another of
/// them.
fn order_needed(n: usize, needed: &Vec<bool>, lists: &Vec<Vec<usize>>) -> (r: Result<Vec<usize>, Vec<usize>>)
    requires
        lists_closed(n as int, needed@, lists@),
    ensures
        match r {
            Ok(order) => order_state(n as int, needed@, lists@, Seq::new(n as nat, |j: int| needed@[j]), order@),
            Err(core) => is_index_core(n as int, needed@, lists@, core@),
        },
{
    let mut placed: Vec<bool> = Vec::new();
    while placed.len() < n
        invariant
            placed@.len() <= n,
            forall|i: int| 0 <= i < placed@.len() ==> !placed@[i],
        decreases n - placed@.len(),
    {
        placed.push(false);
    }
    let mut order: Vec<usize> = Vec::new();
    proof {
        assert forall|i: int| 0 <= i < n implies (#[trigger] placed@[i] <==> order@.contains(i as usize)) by {
            assert(!placed@[i]);
        }
    }
    loop
        invariant
            lists_closed(n as int, needed@, lists@),
            order_state(n as int, needed@, lists@, placed@, order@),
        decreases n - order@.len(),
    {
        let progress = place_pass(n, needed, lists, &mut placed, &mut order);
        if !progress {
            let ghost pl = placed@;
            let ghost ord = order@;
            let r = conclude(n, needed, lists, &placed, order);
            proof {
                if r is Ok {
                    let full = Seq::new(n as nat, |j: int| needed@[j]);
                    assert(full =~= pl) by {
                        assert forall|j: int| 0 <= j < n implies full[j] == pl[j] by {
                            if needed@[j] {
                                assert(ord.contains(j as usize));
                            }
                        }
                    }
                }
            }
            return r;
        }
    }
}

// ── The firing order ─────────────────────────────────────────────────────────

/// `ids` joined with `, `.
pub open spec fn join_ids(ids: Seq<Seq<char>>) -> Seq<char>
    decreases ids.len(),
{
    if ids.len() == 0 {
        seq![]
    } else if ids.len() == 1 {
        ids[0]
    } else {
        join_ids(ids.drop_last()) + ", "@ + ids.last()
    }
}

pub open spec fn cycle_message(ids: Seq<Seq<char>>) -> Seq<char> {
    "cyclic Request dependencies among: "@ + join_ids(ids)
}

pub open spec fn as_ints(v: Seq<usize>) -> Seq<int> {
    v.map_values(|x: usize| x as int)
}

proof fn lemma_needed_facts(reg: Seq<Request>, targets: Seq<String>, needed: Seq<bool>)
    requires
        !closure_broken(reg, targets),
        needed.len() == reg.len(),
        forall|j: int|
            #![trigger reachable(reg, roots_of(reg, targets), j)]
            reachable(reg, roots_of(reg, targets), j) <==> 0 <= j < reg.len() && needed[j],
    ensures
        forall|i: int| 0 <= i < reg.len() && #[trigger] needed[i] ==> node_ok(reg, i),
        forall|i: int, k: int|
            0 <= i < reg.len() && needed[i] && 0 <= k < refs_of(reg, i).len() ==> needed[producer(
                reg,
                #[trigger] refs_of(reg, i)[k],
            )],
{
    let roots = roots_of(reg, targets);
    assert forall|i: int| 0 <= i < reg.len() && #[trigger] needed[i] implies node_ok(reg, i) by {
        assert(reachable(reg, roots, i));
    }
    assert forall|i: int, k: int|
        0 <= i < reg.len() && needed[i] && 0 <= k < refs_of(reg, i).len() implies needed[producer(
        reg,
        #[trigger] refs_of(reg, i)[k],
    )] by {
        assert(reachable(reg, roots, i));
        assert(node_ok(reg, i));
        assert(ref_ok(reg, refs_of(reg, i)[k]));
        lemma_reach_step(reg, roots, i, k);
        assert(reachable(reg, roots, producer(reg, refs_of(reg, i)[k])));
    }
}

proof fn lemma_order_is_dependency_order(
    reg: Seq<Request>,
    targets: Seq<String>,
    needed: Seq<bool>,
    lists: Seq<Vec<usize>>,
    order: Seq<usize>,
)
    requires
        needed.len() == reg.len(),
        forall|j: int|
            #![trigger reachable(reg, roots_of(reg, targets), j)]
            reachable(reg, roots_of(reg, targets), j) <==> 0 <= j < reg.len() && needed[j],
        dependency_lists_ok(reg, needed, lists),
        order_state(reg.len() as int, needed, lists, Seq::new(reg.len(), |j: int| needed[j]), order),
        reg.len() <= usize::MAX,
    ensures
        is_dependency_order(reg, roots_of(reg, targets), as_ints(order)),
{
    let roots = roots_of(reg, targets);
    let oi = as_ints(order);
    let n = reg.len() as int;
    let full = Seq::new(reg.len(), |j: int| needed[j]);
    assert forall|a: int, b: int| 0 <= a < oi.len() && 0 <= b < oi.len() && a != b implies oi[a] != oi[b] by {
        if a < b {
            assert(order[a] != order[b]);
        } else {
            assert(order[b] != order[a]);
        }
    }
    assert forall|j: int| oi.contains(j) <==> reachable(reg, roots, j) by {
        if oi.contains(j) {
            let w = choose|w: int| 0 <= w < oi.len() && oi[w] == j;
            assert(order[w] < n);
            assert(order.contains(j as usize));
            assert(full[j]);
        }
        if reachable(reg, roots, j) {
            assert(0 <= j < n);
            assert(full[j]);
            assert(order.contains(j as usize));
            let w = choose|w: int| 0 <= w < order.len() && order[w] == j as usize;
            assert(oi[w] == order[w] as int);
            assert((j as usize) as int == j);
            assert(oi[w] == j);
        }
    }
    assert forall|a: int, b: int|
        0 <= a < oi.len() && 0 <= b < oi.len() && depends(reg, oi[a], oi[b]) implies b < a by {
        let i = oi[a];
        assert(full[i]);
        assert(needed[i]);
        let k = choose|k: int|
            0 <= k < refs_of(reg, i).len() && find_request(reg, #[trigger] refs_of(reg, i)[k].0) == Some(oi[b]);
        assert(lists[i]@[k] as int == oi[b]);
        assert(placed_before(order, a, lists[order[a] as int]@[k]));
        let b2 = choose|b2: int| 0 <= b2 < a && order[b2] == lists[order[a] as int]@[k];
        if b2 != b {
            if b2 < b {
                assert(order[b2] != order[b]);
            } else {
                assert(order[b] != order[b2]);
            }
        }
    }
}

proof fn lemma_core_is_dependent_core(
    reg: Seq<Request>,
    targets: Seq<String>,
    needed: Seq<bool>,
    lists: Seq<Vec<usize>>,
    core: Seq<usize>,
)
    requires
        needed.len() == reg.len(),
        forall|j: int|
            #![trigger reachable(reg, roots_of(reg, targets), j)]
            reachable(reg, roots_of(reg, targets), j) <==> 0 <= j < reg.len() && needed[j],
        dependency_lists_ok(reg, needed, lists),
        is_index_core(reg.len() as int, needed, lists, core),
    ensures
        is_dependent_core(reg, roots_of(reg, targets), as_ints(core)),
{
    let roots = roots_of(reg, targets);
    let ci = as_ints(core);
    assert forall|a: int, b: int| 0 <= a < ci.len() && 0 <= b < ci.len() && a != b implies ci[a] != ci[b] by {
        if a < b {
            assert(core[a] != core[b]);
        } else {
            assert(core[b] != core[a]);
        }
    }
    assert forall|a: int| 0 <= a < ci.len() implies reachable(reg, roots, #[trigger] ci[a]) by {
        assert(core[a] < reg.len() && needed[core[a] as int]);
    }
    assert forall|a: int| 0 <= a < ci.len() implies depends_on_one_of(reg, #[trigger] ci[a], ci) by {
        let x = core[a];
        assert(waits_in(lists, core, x));
        let k = choose|k: int| 0 <= k < lists[x as int]@.len() && core.contains(#[trigger] lists[x as int]@[k]);
        let b = choose|b: int| 0 <= b < core.len() && core[b] == lists[x as int]@[k];
        assert(needed[x as int]);
        assert(find_request(reg, refs_of(reg, x as int)[k].0) == Some(lists[x as int]@[k] as int));
        assert(depends(reg, ci[a], ci[b]));
    }
}

/// The ids of `order`'s requests, in order.
fn ids_for(reg: &[Request], order: &Vec<usize>) -> (ids: Vec<String>)
    requires
        forall|a: int| 0 <= a < order@.len() ==> #[trigger] order@[a] < reg@.len(),
    ensures
        strings_view(ids@) == ids_of(reg@, as_ints(order@)),
{
    let mut ids: Vec<String> = Vec::new();
    let mut a: usize = 0;
    while a < order.len()
        invariant
            a <= order@.len(),
            forall|a: int| 0 <= a < order@.len() ==> #[trigger] order@[a] < reg@.len(),
            strings_view(ids@) == ids_of(reg@, as_ints(order@)).take(a as int),
        decreases order@.len() - a,
    {
        let ghost prev = ids@;
        ids.push(reg[order[a]].id.clone());
        assert(strings_view(ids@) =~= strings_view(prev).push(reg@[order@[a as int] as int].id@));
        assert(ids_of(reg@, as_ints(order@)).take(a + 1) =~= ids_of(reg@, as_ints(order@)).take(
            a as int,
        ).push(ids_of(reg@, as_ints(order@))[a as int]));
        a += 1;
    }
    assert(ids_of(reg@, as_ints(order@)).take(order@.len() as int) =~= ids_of(reg@, as_ints(order@)));
    ids
}

fn join_with_commas(ids: &Vec<String>) -> (joined: String)
    ensures
        joined@ == join_ids(strings_view(ids@)),
{
    let mut joined = String::new();
    let mut a: usize = 0;
    while a < ids.len()
        invariant
            a <= ids@.len(),
            joined@ == join_ids(strings_view(ids@).take(a as int)),
        decreases ids@.len() - a,
    {
        let ghost sv = strings_view(ids@);
        assert(sv.take(a + 1).drop_last() =~= sv.take(a as int));
        assert(sv.take(a + 1).last() == ids@[a as int]@);
        if a > 0 {
            push_str(&mut joined, ", ");
        } else {
            assert(sv.take(1) =~= seq![sv[0]]);
        }
        push_str(&mut joined, ids[a].as_str());
        a += 1;
    }
    assert(strings_view(ids@).take(ids@.len() as int) =~= strings_view(ids@));
    joined
}

proof fn lemma_lists_closed(reg: Seq<Request>, needed: Seq<bool>, lists: Seq<Vec<usize>>)
    requires
        dependency_lists_ok(reg, needed, lists),
    ensures
        lists_closed(reg.len() as int, needed, lists),
{
    assert forall|i: int, k: int|
        0 <= i < reg.len() && needed[i] && 0 <= k < lists[i]@.len() implies #[trigger] lists[i]@[k]
        < reg.len() && needed[lists[i]@[k] as int] by {
        lemma_find_request(reg, refs_of(reg, i)[k].0);
    }
}

fn cycle_error(reg: &[Request], core: &Vec<usize>) -> (e: RunnerError)
    requires
        forall|a: int| 0 <= a < core@.len() ==> #[trigger] core@[a] < reg@.len(),
    ensures
        e == (RunnerError::Extraction { reason: e->reason }),
        e->reason@ == cycle_message(ids_of(reg@, as_ints(core@))),
{
    let ids = ids_for(reg, core);
    let joined = join_with_commas(&ids);
    let mut reason = owned("cyclic Request dependencies among: ");
    push_str(&mut reason, joined.as_str());
    RunnerError::Extraction { reason }
}

/// The firing order for `targets` against the registry of known requests:
/// every needed request (the targets and all they transitively reference)
/// once, each after the requests it depends on. The error is a missing
/// target, a reference to an unknown request, a reference to a bind its
/// request does not declare, or a dependency cycle.
pub fn topological_order(targets: &[String], registry: &[Request]) -> (r: Result<Vec<String>, RunnerError>)
    ensures
        match r {
            Ok(ids) => !closure_broken(registry@, targets@) && exists|order: Seq<int>|
                is_dependency_order(registry@, roots_of(registry@, targets@), order) && strings_view(
                    ids@,
                ) == ids_of(registry@, order),
            Err(RunnerError::Extraction { reason }) => (closure_broken(registry@, targets@)
                && reports_broken(registry@, targets@, reason@)) || (!closure_broken(
                registry@,
                targets@,
            ) && exists|core: Seq<int>|
                is_dependent_core(registry@, roots_of(registry@, targets@), core) && reason@
                    == cycle_message(ids_of(registry@, core))),
            Err(_) => false,
        },
{
    let needed = match collect_needed(targets, registry) {
        Ok(needed) => needed,
        Err(e) => {
            return Err(e);
        },
    };
    proof {
        lemma_needed_facts(registry@, targets@, needed@);
    }
    let lists = dependency_lists(registry, &needed);
    let n = registry.len();
    proof {
        lemma_lists_closed(registry@, needed@, lists@);
    }
    match order_needed(n, &needed, &lists) {
        Ok(order) => {
            proof {
                assert(Seq::new(n as nat, |j: int| needed@[j]) =~= Seq::new(registry@.len(), |j: int| needed@[j]));
                lemma_order_is_dependency_order(registry@, targets@, needed@, lists@, order@);
            }
            let ids = ids_for(registry, &order);
            Ok(ids)
        },
        Err(core) => {
            proof {
                lemma_core_is_dependent_core(registry@, targets@, needed@, lists@, core@);
            }
            Err(cycle_error(registry, &core))
        },
    }
}

// ── Laws of the firing order ─────────────────────────────────────────────────

proof fn lemma_core_not_in_prefix(reg: Seq<Request>, roots: Seq<int>, order: Seq<int>, core: Seq<int>, p: int)
    requires
        is_dependency_order(reg, roots, order),
        is_dependent_core(reg, roots, core),
        0 <= p < order.len(),
    ensures
        !core.contains(order[p]),
    decreases p,
{
    if core.contains(order[p]) {
        let a = choose|a: int| 0 <= a < core.len() && core[a] == order[p];
        assert(depends_on_one_of(reg, core[a], core));
        let b = choose|b: int| 0 <= b < core.len() && depends(reg, core[a], #[trigger] core[b]);
        assert(reachable(reg, roots, core[b]));
        assert(order.contains(core[b]));
        let q = choose|q: int| 0 <= q < order.len() && order[q] == core[b];
        assert(depends(reg, order[p], order[q]));
        assert(q < p);
        lemma_core_not_in_prefix(reg, roots, order, core, q);
    }
}

/// A dependency cycle and a firing order exclude each other: when the
/// needed requests can be ordered, no set of them waits on itself, so the
/// cycle error is reported only when no order exists.
pub proof fn lemma_order_excludes_cycle(reg: Seq<Request>, roots: Seq<int>, order: Seq<int>, core: Seq<int>)
    requires
        is_dependency_order(reg, roots, order),
    ensures
        !is_dependent_core(reg, roots, core),
{
    if is_dependent_core(reg, roots, core) {
        assert(reachable(reg, roots, core[0]));
        assert(order.contains(core[0]));
        let p = choose|p: int| 0 <= p < order.len() && order[p] == core[0];
        lemma_core_not_in_prefix(reg, roots, order, core, p);
        assert(core.contains(core[0]));
    }
}

proof fn lemma_path_positions(reg: Seq<Request>, roots: Seq<int>, order: Seq<int>, path: Seq<int>, m: int)
    requires
        is_dependency_order(reg, roots, order),
        is_path(reg, path),
        roots.contains(path[0]),
        0 <= m < path.len(),
    ensures
        reachable(reg, roots, path[m]),
        order.contains(path[m]),
        m > 0 ==> order.index_of(path[m]) < order.index_of(path[0]),
    decreases m,
{
    let prefix = path.take(m + 1);
    assert forall|i: int| 0 <= i < prefix.len() - 1 implies depends(reg, #[trigger] prefix[i], prefix[i + 1]) by {
        assert(prefix[i] == path[i] && prefix[i + 1] == path[i + 1]);
    }
    assert(is_path(reg, prefix) && prefix[0] == path[0] && prefix.last() == path[m]);
    assert(reachable(reg, roots, path[m]));
    assert(order.contains(path[m]));
    if m > 0 {
        lemma_path_positions(reg, roots, order, path, m - 1);
        let a = order.index_of(path[m - 1]);
        let b = order.index_of(path[m]);
        assert(depends(reg, path[m - 1], path[m]));
        assert(order[a] == path[m - 1] && order[b] == path[m]);
        assert(b < a);
    }
}

/// With a single target, the target fires last: every other needed request
/// is one it transitively depends on, so each comes before it.
pub proof fn lemma_single_target_fires_last(reg: Seq<Request>, roots: Seq<int>, order: Seq<int>)
    requires
        roots.len() == 1,
        is_dependency_order(reg, roots, order),
    ensures
        order.len() > 0,
        order.last() == roots[0],
{
    let r = roots[0];
    lemma_root_reachable(reg, roots, 0);
    assert(order.contains(r));
    let pr = order.index_of(r);
    if pr != order.len() - 1 {
        let j = order[order.len() - 1];
        assert(order.contains(j));
        assert(reachable(reg, roots, j));
        let path = choose|path: Seq<int>| is_path(reg, path) && roots.contains(path[0]) && #[trigger] path.last() == j;
        assert(path[0] == r);
        if path.len() == 1 {
            assert(j == r);
            assert(order[pr] == order[order.len() - 1]);
        } else {
            lemma_path_positions(reg, roots, order, path, path.len() - 1);
            assert(order.index_of(j) < pr);
            assert(order.index_of(j) == order.len() - 1) by {
                let w = order.index_of(j);
                assert(order[w] == order[order.len() - 1]);
            }
        }
    }
}

proof fn lemma_contains_concat<A>(a: Seq<A>, b: Seq<A>, x: A)
    requires
        a.contains(x) || b.contains(x),
    ensures
        (a + b).contains(x),
{
    if a.contains(x) {
        let k = choose|k: int| 0 <= k < a.len() && a[k] == x;
        assert((a + b)[k] == x);
    } else {
        let k = choose|k: int| 0 <= k < b.len() && b[k] == x;
        assert((a + b)[a.len() + k] == x);
    }
}

proof fn lemma_dedup_contains<A>(s: Seq<A>, x: A)
    requires
        s.contains(x),
    ensures
        dedup(s).contains(x),
    decreases s.len(),
{
    let d = s.drop_last();
    if d.contains(x) {
        lemma_dedup_contains(d, x);
        let k = choose|k: int| 0 <= k < dedup(d).len() && dedup(d)[k] == x;
        if !dedup(d).contains(s.last()) {
            assert(dedup(s)[k] == x);
        }
    } else {
        let k = choose|k: int| 0 <= k < s.len() && s[k] == x;
        if k < s.len() - 1 {
            assert(d[k] == x);
        }
        assert(s.last() == x);
        if !dedup(d).contains(x) {
            assert(dedup(s)[dedup(s).len() - 1] == x);
        }
    }
}

proof fn lemma_json_refs_cover(v: JsonValue, s: Seq<char>, x: (Seq<char>, Seq<char>))
    requires
        occurs_in_json(v, s),
        template_refs(s).contains(x),
    ensures
        json_refs(v).contains(x),
    decreases v, 0int,
{
    match v {
        JsonValue::Array(items) => {
            lemma_items_refs_cover(items@, s, x);
        },
        JsonValue::Object(entries) => {
            lemma_entries_refs_cover(entries@, s, x);
        },
        _ => {},
    }
}

proof fn lemma_items_refs_cover(items: Seq<JsonValue>, s: Seq<char>, x: (Seq<char>, Seq<char>))
    requires
        occurs_in_items(items, s),
        template_refs(s).contains(x),
    ensures
        items_refs(items).contains(x),
    decreases items, 1int,
{
    if occurs_in_items(items.drop_last(), s) {
        lemma_items_refs_cover(items.drop_last(), s, x);
    } else {
        lemma_json_refs_cover(items.last(), s, x);
    }
    lemma_contains_concat(items_refs(items.drop_last()), json_refs(items.last()), x);
}

proof fn lemma_entries_refs_cover(entries: Seq<(String, JsonValue)>, s: Seq<char>, x: (Seq<char>, Seq<char>))
    requires
        occurs_in_entries(entries, s),
        template_refs(s).contains(x),
    ensures
        entries_refs(entries).contains(x),
    decreases entries, 1int,
{
    let a = entries_refs(entries.drop_last());
    let b = template_refs(entries.last().0@);
    let c = json_refs(entries.last().1);
    if occurs_in_entries(entries.drop_last(), s) {
        lemma_entries_refs_cover(entries.drop_last(), s, x);
        lemma_contains_concat(a, b, x);
    } else if entries.last().0@ == s {
        lemma_contains_concat(a, b, x);
    } else {
        lemma_json_refs_cover(entries.last().1, s, x);
    }
    lemma_contains_concat(a + b, c, x);
}

proof fn lemma_headers_refs_cover(h: Seq<(String, String)>, k: int, s: Seq<char>, x: (Seq<char>, Seq<char>))
    requires
        0 <= k < h.len(),
        s == h[k].0@ || s == h[k].1@,
        template_refs(s).contains(x),
    ensures
        headers_refs(h).contains(x),
    decreases h.len(),
{
    let a = headers_refs(h.drop_last());
    let b = template_refs(h.last().0@);
    let c = template_refs(h.last().1@);
    if k < h.len() - 1 {
        assert(h.drop_last()[k] == h[k]);
        lemma_headers_refs_cover(h.drop_last(), k, s, x);
        lemma_contains_concat(a, b, x);
        lemma_contains_concat(a + b, c, x);
    } else if s == h.last().0@ {
        lemma_contains_concat(a, b, x);
        lemma_contains_concat(a + b, c, x);
    } else {
        lemma_contains_concat(a + b, c, x);
    }
}

/// The dependencies of a request include every `{{<id>.<bind>}}` reference
/// in any string of its body when the body is JSON or a form (values and
/// member names, at any depth), every reference in a text or raw body
/// string, and every reference in its URL and in each header's name and
/// value.
pub proof fn lemma_request_refs_cover(r: Request, s: Seq<char>, x: (Seq<char>, Seq<char>))
    requires
        template_refs(s).contains(x),
    ensures
        (r.body_format == BodyFormat::Json || r.body_format == BodyFormat::Form) && occurs_in_json(r.body, s)
            ==> request_refs(r).contains(x),
        s == r.url@ ==> request_refs(r).contains(x),
        (exists|k: int| 0 <= k < r.headers@.len() && (s == r.headers@[k].0@ || s == r.headers@[k].1@)) ==> request_refs(
            r,
        ).contains(x),
        (r.body_format != BodyFormat::Json && r.body_format != BodyFormat::Form && r.body is Str && r.body->Str_0@
            == s) ==> request_refs(r).contains(x),
{
    let u = template_refs(r.url@);
    let h = headers_refs(r.headers@);
    let b = body_refs(r.body_format, r.body);
    if (r.body_format == BodyFormat::Json || r.body_format == BodyFormat::Form) && occurs_in_json(r.body, s) {
        lemma_json_refs_cover(r.body, s, x);
        assert(b == json_refs(r.body));
        lemma_contains_concat(u + h, b, x);
        lemma_dedup_contains(u + h + b, x);
    }
    if exists|k: int| 0 <= k < r.headers@.len() && (s == r.headers@[k].0@ || s == r.headers@[k].1@) {
        let k = choose|k: int| 0 <= k < r.headers@.len() && (s == r.headers@[k].0@ || s == r.headers@[k].1@);
        lemma_headers_refs_cover(r.headers@, k, s, x);
        lemma_contains_concat(u, h, x);
        lemma_contains_concat(u + h, b, x);
        lemma_dedup_contains(u + h + b, x);
    }
    if r.body_format != BodyFormat::Json && r.body_format != BodyFormat::Form && r.body is Str && r.body->Str_0@ == s {
        assert(b == template_refs(s));
        lemma_contains_concat(u + h, b, x);
        lemma_dedup_contains(u + h + b, x);
    }
    if s == r.url@ {
        lemma_contains_concat(u, h, x);
        lemma_contains_concat(u + h, b, x);
        lemma_dedup_contains(u + h + b, x);
    }
}

} // verus!
