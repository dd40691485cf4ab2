//! What a request looks like before it is sent: its headers with secrets
//! masked and its body rendered, for the request preview and the attempt
//! log.
use vstd::prelude::*;

use crate::adapter::set_header;
use crate::binds::pairs_set;
use crate::deps::{AdapterType, BodyFormat, Request};
use crate::error::RunnerError;
use crate::json::{json_text, to_json_text, JsonValue};
use crate::json_template::{
    insert_pos, lemma_insert_pos_bounds, lemma_member_index, lemma_member_index_is, member_index, object_insert,
};
use crate::redact::{log_headers, request_headers_for_log};
use crate::report_keys::key_less;
use crate::run::{limit_body_for_log, too_large_message, BODY_LOG_LIMIT};
use crate::session::SessionStrategy;
use crate::template::{
    headers_result_matches, pairs_view, render, render_headers, render_headers_spec, render_spec, Pairs,
};
use crate::text::{owned, push_str, str_eq};
use crate::wrappers::{json_check, json_pretty, json_quote, json_string, json_syntax_error, lossy_utf8, pretty_json_of};

verus! {

// ── Object texts ─────────────────────────────────────────────────────────────

/// An object's members as key and compact value text.
pub open spec fn member_texts(ms: Seq<(String, JsonValue)>) -> Seq<(Seq<char>, Seq<char>)> {
    ms.map_values(|m: (String, JsonValue)| (m.0@, json_text(m.1)))
}

/// The first `n` members written as `"key":value`, comma-separated.
pub open spec fn pairs_join(ps: Seq<(Seq<char>, Seq<char>)>, n: int) -> Seq<char>
    decreases n,
{
    if n <= 0 || n > ps.len() {
        seq![]
    } else if n == 1 {
        json_string(ps[0].0) + ":"@ + ps[0].1
    } else {
        pairs_join(ps, n - 1) + ","@ + json_string(ps[n - 1].0) + ":"@ + ps[n - 1].1
    }
}

/// The compact JSON text of an object given its members' texts.
pub open spec fn object_text(ps: Seq<(Seq<char>, Seq<char>)>) -> Seq<char> {
    "{"@ + pairs_join(ps, ps.len() as int) + "}"@
}

fn member_texts_of(ms: &Vec<(String, JsonValue)>) -> (r: Vec<(String, String)>)
    ensures
        pairs_view(r@) == member_texts(ms@),
{
    let mut r: Vec<(String, String)> = Vec::new();
    let mut i: usize = 0;
    while i < ms.len()
        invariant
            i <= ms@.len(),
            pairs_view(r@) == member_texts(ms@).take(i as int),
        decreases ms@.len() - i,
    {
        let t = to_json_text(&ms[i].1);
        let k = ms[i].0.clone();
        let ghost prev = r@;
        let ghost entry = (k@, t@);
        r.push((k, t));
        assert(pairs_view(r@) =~= pairs_view(prev).push(entry));
        assert(pairs_view(r@) =~= member_texts(ms@).take(i + 1));
        i += 1;
    }
    assert(member_texts(ms@).take(ms@.len() as int) =~= member_texts(ms@));
    r
}

fn object_text_of(ps: &Vec<(String, String)>) -> (r: String)
    ensures
        r@ == object_text(pairs_view(ps@)),
{
    let ghost v = pairs_view(ps@);
    let mut r = owned("{");
    let mut i: usize = 0;
    while i < ps.len()
        invariant
            i <= ps@.len(),
            v == pairs_view(ps@),
            r@ == "{"@ + pairs_join(v, i as int),
        decreases ps@.len() - i,
    {
        if i > 0 {
            push_str(&mut r, ",");
        }
        let k = json_quote(ps[i].0.as_str());
        push_str(&mut r, k.as_str());
        push_str(&mut r, ":");
        push_str(&mut r, ps[i].1.as_str());
        assert(r@ =~= "{"@ + pairs_join(v, i + 1));
        i += 1;
    }
    push_str(&mut r, "}");
    r
}

/// Inserts a member text as serde_json's map does (key order; an equal key
/// is replaced in place).
fn insert_text_member(ps: &mut Vec<(String, String)>, key: &str, value: String)
    ensures
        pairs_view(final(ps)@) == object_insert(pairs_view(old(ps)@), key@, value@),
{
    let ghost before = pairs_view(ps@);
    let mut k: usize = 0;
    while k < ps.len()
        invariant
            k <= ps@.len(),
            before == pairs_view(ps@),
            before == pairs_view(old(ps)@),
            forall|j: int| 0 <= j < k ==> before[j].0 != key@,
        decreases ps@.len() - k,
    {
        if str_eq(ps[k].0.as_str(), key) {
            proof {
                lemma_member_index_is(before, key@, k as int);
            }
            ps.set(k, (owned(key), value));
            assert(pairs_view(ps@) =~= object_insert(before, key@, value@));
            return;
        }
        k += 1;
    }
    proof {
        lemma_member_index(before, key@);
        if let Some(h) = member_index(before, key@) {
            assert(before[h].0 != key@);
        }
    }
    let mut p: usize = 0;
    assert(before.skip(0) =~= before);
    while p < ps.len() && key_less(ps[p].0.as_str(), key, false)
        invariant
            p <= ps@.len(),
            before == pairs_view(ps@),
            insert_pos(before, key@) == p + insert_pos(before.skip(p as int), key@),
        decreases ps@.len() - p,
    {
        proof {
            let t = before.skip(p as int);
            assert(t[0] == before[p as int]);
            assert(t.drop_first() =~= before.skip(p + 1));
        }
        p += 1;
    }
    proof {
        let t = before.skip(p as int);
        if p < ps@.len() {
            assert(t[0] == before[p as int]);
        }
        lemma_insert_pos_bounds(before, key@);
    }
    ps.insert(p, (owned(key), value));
    assert(pairs_view(ps@) =~= object_insert(before, key@, value@));
}

// ── Bodies ───────────────────────────────────────────────────────────────────

/// The session token as a member text under the body-field strategy.
pub open spec fn with_session(
    ps: Seq<(Seq<char>, Seq<char>)>,
    strategy: SessionStrategy,
    session_value: Seq<char>,
) -> Seq<(Seq<char>, Seq<char>)> {
    match strategy {
        SessionStrategy::BodyField { field_name } => object_insert(ps, field_name@, json_string(session_value)),
        _ => ps,
    }
}

/// The compact text of a JSON body, with the session token added to an
/// object body under the body-field strategy.
pub open spec fn json_body_text(content: JsonValue, strategy: SessionStrategy, session_value: Seq<char>) -> Seq<char> {
    match (strategy, content) {
        (SessionStrategy::BodyField { .. }, JsonValue::Object(ms)) => object_text(
            with_session(member_texts(ms@), strategy, session_value),
        ),
        _ => json_text(content),
    }
}

/// The `messages` an OpenAI-style body gets when it has none: one user turn
/// holding the prompt.
pub open spec fn default_messages(prompt: Seq<char>) -> Seq<char> {
    "[{\"content\":"@ + json_string(prompt) + ",\"role\":\"user\"}]"@
}

/// A rendered body: its text, or `(true, m)` for a template error and
/// `(false, m)` for a JSON error.
pub open spec fn from_render(r: Result<Seq<char>, Seq<char>>) -> Result<Seq<char>, (bool, Seq<char>)> {
    match r {
        Ok(t) => Ok(t),
        Err(m) => Err((true, m)),
    }
}

pub open spec fn from_pretty(r: Result<Seq<char>, Seq<char>>) -> Result<Seq<char>, (bool, Seq<char>)> {
    match r {
        Ok(t) => Ok(t),
        Err(m) => Err((false, m)),
    }
}

/// The body of an OpenAI-style request: its `messages` rendered (and read
/// back as JSON), or a single user turn holding the prompt; the session
/// token added; pretty-printed.
pub open spec fn openai_body_text(
    content: JsonValue,
    prompt: Seq<char>,
    strategy: SessionStrategy,
    session_value: Seq<char>,
    env: Seq<(Seq<char>, Seq<char>)>,
) -> Result<Seq<char>, (bool, Seq<char>)> {
    let es = match content {
        JsonValue::Object(ms) => member_texts(ms@),
        _ => seq![],
    };
    match member_index(es, "messages"@) {
        Some(k) => match render_spec(es[k].1, prompt, seq![], env) {
            Err(m) => Err((true, m)),
            Ok(x) => match json_syntax_error(x) {
                Some(m) => Err((false, m)),
                None => from_pretty(pretty_json_of(object_text(with_session(es.update(k, ("messages"@, x)), strategy, session_value)))),
            },
        },
        None => from_pretty(
            pretty_json_of(
                object_text(with_session(object_insert(es, "messages"@, default_messages(prompt)), strategy, session_value)),
            ),
        ),
    }
}

/// The string a text body holds (nothing for another JSON value).
pub open spec fn text_of(content: JsonValue) -> Seq<char> {
    match content {
        JsonValue::Str(s) => s@,
        _ => seq![],
    }
}

/// The body a request sends for `prompt`, as text.
pub open spec fn body_text_spec(
    req: Request,
    prompt: Seq<char>,
    strategy: SessionStrategy,
    session_value: Seq<char>,
    env: Seq<(Seq<char>, Seq<char>)>,
) -> Result<Seq<char>, (bool, Seq<char>)> {
    match req.adapter {
        AdapterType::CustomRest => match req.body_format {
            BodyFormat::Json => match render_spec(json_body_text(req.body, strategy, session_value), prompt, seq![], env) {
                Err(m) => Err((true, m)),
                Ok(x) => from_pretty(pretty_json_of(x)),
            },
            BodyFormat::Form => from_render(render_spec(json_text(req.body), prompt, seq![], env)),
            _ => from_render(render_spec(text_of(req.body), prompt, seq![], env)),
        },
        AdapterType::OpenAiCompat => openai_body_text(req.body, prompt, strategy, session_value, env),
        AdapterType::RawHttp => from_render(
            render_spec(
                match req.body {
                    JsonValue::Str(s) => s@,
                    _ => json_text(req.body),
                },
                prompt,
                seq![],
                env,
            ),
        ),
    }
}

/// An OpenAI-style body must be a JSON object, or null (which becomes one).
pub open spec fn body_sendable(req: Request) -> bool {
    req.adapter == AdapterType::OpenAiCompat ==> (req.body is Object || req.body is Null)
}

pub open spec fn error_matches(e: RunnerError, kind: (bool, Seq<char>)) -> bool {
    if kind.0 {
        e matches RunnerError::Template { message } && message@ == kind.1
    } else {
        e matches RunnerError::Extraction { reason } && reason@ == kind.1
    }
}

pub open spec fn body_matches(r: Result<String, RunnerError>, s: Result<Seq<char>, (bool, Seq<char>)>) -> bool {
    match (r, s) {
        (Ok(t), Ok(u)) => t@ == u,
        (Err(e), Err(k)) => error_matches(e, k),
        _ => false,
    }
}

fn rendered(template: &str, prompt: &str, env: &Pairs) -> (r: Result<String, RunnerError>)
    ensures
        body_matches(r, from_render(render_spec(template@, prompt@, seq![], pairs_view(env@)))),
{
    render(template, prompt, env)
}

fn pretty(text: &str) -> (r: Result<String, RunnerError>)
    ensures
        body_matches(r, from_pretty(pretty_json_of(text@))),
{
    match json_pretty(text) {
        Ok(p) => Ok(p),
        Err(reason) => Err(RunnerError::Extraction { reason }),
    }
}

fn session_text(strategy: &SessionStrategy, session_value: &str, ps: &mut Vec<(String, String)>)
    ensures
        pairs_view(final(ps)@) == with_session(pairs_view(old(ps)@), *strategy, session_value@),
{
    match strategy {
        SessionStrategy::BodyField { field_name } => {
            insert_text_member(ps, field_name.as_str(), json_quote(session_value));
        },
        _ => {},
    }
}

fn openai_body(content: &JsonValue, prompt: &str, strategy: &SessionStrategy, session_value: &str, env: &Pairs) -> (r:
    Result<String, RunnerError>)
    requires
        content is Object || content is Null,
    ensures
        body_matches(r, openai_body_text(*content, prompt@, *strategy, session_value@, pairs_view(env@))),
{
    let mut es: Vec<(String, String)> = match content {
        JsonValue::Object(ms) => member_texts_of(ms),
        _ => {
            let e: Vec<(String, String)> = Vec::new();
            assert(pairs_view(e@) =~= seq![]);
            e
        },
    };
    let ghost ev = pairs_view(es@);
    proof {
        reveal_strlit("messages");
        lemma_member_index(ev, "messages"@);
    }
    let mut k: usize = 0;
    while k < es.len() && !str_eq(es[k].0.as_str(), "messages")
        invariant
            k <= es@.len(),
            ev == pairs_view(es@),
            forall|j: int| 0 <= j < k ==> ev[j].0 != "messages"@,
        decreases es@.len() - k,
    {
        k += 1;
    }
    if k < es.len() {
        proof {
            lemma_member_index_is(ev, "messages"@, k as int);
        }
        let x = match rendered(es[k].1.as_str(), prompt, env) {
            Ok(x) => x,
            Err(e) => {
                return Err(e);
            },
        };
        match json_check(x.as_str()) {
            Some(reason) => {
                return Err(RunnerError::Extraction { reason });
            },
            None => {},
        }
        let ghost xv = x@;
        es.set(k, (owned("messages"), x));
        assert(pairs_view(es@) =~= ev.update(k as int, ("messages"@, xv)));
        session_text(strategy, session_value, &mut es);
        let t = object_text_of(&es);
        pretty(t.as_str())
    } else {
        proof {
            if let Some(h) = member_index(ev, "messages"@) {
                assert(ev[h].0 != "messages"@);
            }
        }
        let mut m = owned("[{\"content\":");
        let q = json_quote(prompt);
        push_str(&mut m, q.as_str());
        push_str(&mut m, ",\"role\":\"user\"}]");
        insert_text_member(&mut es, "messages", m);
        session_text(strategy, session_value, &mut es);
        let t = object_text_of(&es);
        pretty(t.as_str())
    }
}

/// The body a request sends for `prompt`, as text: a JSON body rendered
/// and pretty-printed, a form body rendered as JSON text, a text body
/// rendered, an OpenAI-style body with its messages rendered, a raw body
/// rendered. A template error is `Template`; text that does not read back
/// as JSON is `Extraction` with serde_json's message.
pub fn render_body_text(request: &Request, prompt: &str, strategy: &SessionStrategy, session_value: &str, env: &Pairs) -> (r:
    Result<String, RunnerError>)
    requires
        body_sendable(*request),
    ensures
        body_matches(r, body_text_spec(*request, prompt@, *strategy, session_value@, pairs_view(env@))),
{
    match request.adapter {
        AdapterType::CustomRest => match request.body_format {
            BodyFormat::Json => {
                let text = match (strategy, &request.body) {
                    (SessionStrategy::BodyField { .. }, JsonValue::Object(ms)) => {
                        let mut ps = member_texts_of(ms);
                        session_text(strategy, session_value, &mut ps);
                        object_text_of(&ps)
                    },
                    _ => to_json_text(&request.body),
                };
                match rendered(text.as_str(), prompt, env) {
                    Ok(x) => pretty(x.as_str()),
                    Err(e) => Err(e),
                }
            },
            BodyFormat::Form => {
                let text = to_json_text(&request.body);
                rendered(text.as_str(), prompt, env)
            },
            _ => {
                let text = match request.body.as_str() {
                    Some(s) => owned(s),
                    None => String::new(),
                };
                rendered(text.as_str(), prompt, env)
            },
        },
        AdapterType::OpenAiCompat => openai_body(&request.body, prompt, strategy, session_value, env),
        AdapterType::RawHttp => {
            let text = match &request.body {
                JsonValue::Str(s) => s.clone(),
                other => to_json_text(other),
            };
            rendered(text.as_str(), prompt, env)
        },
    }
}

// ── Headers ──────────────────────────────────────────────────────────────────

/// The logged headers with the session header set under the header
/// strategy.
pub open spec fn preview_header_pairs(req: Request, strategy: SessionStrategy, session_value: Seq<char>) -> Seq<
    (Seq<char>, Seq<char>),
> {
    match strategy {
        SessionStrategy::Header { header_name } => pairs_set(log_headers(req), header_name@, session_value),
        _ => log_headers(req),
    }
}

/// The headers a request shows: secrets masked, the session header set,
/// values rendered.
pub fn render_preview_headers(request: &Request, strategy: &SessionStrategy, session_value: &str, prompt: &str, env: &Pairs) -> (r:
    Result<Pairs, RunnerError>)
    ensures
        headers_result_matches(
            r,
            render_headers_spec(
                preview_header_pairs(*request, *strategy, session_value@),
                prompt@,
                seq![],
                pairs_view(env@),
                false,
            ),
        ),
{
    let mut headers = request_headers_for_log(request);
    match strategy {
        SessionStrategy::Header { header_name } => set_header(&mut headers, header_name.as_str(), session_value),
        _ => {},
    }
    render_headers(&headers, prompt, env)
}

/// A request as the preview shows it: headers and body text.
#[derive(Debug)]
pub struct RenderedRequestPreview {
    pub headers: Pairs,
    pub body: String,
}

/// Renders a request for the preview: headers with secrets masked and the
/// session header set, and the body text for `prompt`. The header error
/// comes first.
pub fn render_request_preview(request: &Request, strategy: &SessionStrategy, session_value: &str, prompt: &str, env: &Pairs) -> (r:
    Result<RenderedRequestPreview, RunnerError>)
    requires
        body_sendable(*request),
    ensures
        match r {
            Ok(p) => headers_result_matches(
                Ok(p.headers),
                render_headers_spec(preview_header_pairs(*request, *strategy, session_value@), prompt@, seq![], pairs_view(env@), false),
            ) && body_matches(Ok(p.body), body_text_spec(*request, prompt@, *strategy, session_value@, pairs_view(env@))),
            Err(e) => headers_result_matches(
                Err(e),
                render_headers_spec(preview_header_pairs(*request, *strategy, session_value@), prompt@, seq![], pairs_view(env@), false),
            ) || (render_headers_spec(preview_header_pairs(*request, *strategy, session_value@), prompt@, seq![], pairs_view(env@), false) is Ok
                && body_matches(Err(e), body_text_spec(*request, prompt@, *strategy, session_value@, pairs_view(env@)))),
        },
{
    let headers = match render_preview_headers(request, strategy, session_value, prompt, env) {
        Ok(h) => h,
        Err(e) => {
            return Err(e);
        },
    };
    match render_body_text(request, prompt, strategy, session_value, env) {
        Ok(body) => Ok(RenderedRequestPreview { headers, body }),
        Err(e) => Err(e),
    }
}

// ── The attempt log ──────────────────────────────────────────────────────────

/// A request as the attempt log records it.
#[derive(Debug)]
pub struct RequestLogPayload {
    pub headers: Pairs,
    /// The body's size in bytes.
    pub body_size: u64,
    /// The body as logged, when body logging is on.
    pub body_text: Option<String>,
}

/// The bytes of a text (its UTF-8).
fn utf8_of(s: &str) -> (r: Vec<u8>)
    ensures
        r@ == vstd::utf8::encode_utf8(s@),
{
    s.as_bytes_vec()
}

/// Renders a request for the attempt log: its preview headers, its body's
/// size in bytes, and, when body logging is on, the body as logged.
pub fn render_request_for_log(request: &Request, prompt: &str, strategy: &SessionStrategy, session_value: &str, body_logging_enabled: bool, env: &Pairs) -> (r:
    Result<RequestLogPayload, RunnerError>)
    requires
        body_sendable(*request),
    ensures
        match r {
            Ok(p) => headers_result_matches(
                Ok(p.headers),
                render_headers_spec(preview_header_pairs(*request, *strategy, session_value@), prompt@, seq![], pairs_view(env@), false),
            ) && exists|body: String|
                body_matches(Ok(body), body_text_spec(*request, prompt@, *strategy, session_value@, pairs_view(env@)))
                    && p.body_size == vstd::utf8::encode_utf8(body@).len() && (match p.body_text {
                    Some(t) => body_logging_enabled && (if vstd::utf8::encode_utf8(body@).len() > BODY_LOG_LIMIT {
                        t@ == too_large_message(vstd::utf8::encode_utf8(body@).len())
                    } else {
                        t@ == lossy_utf8(vstd::utf8::encode_utf8(body@))
                    }),
                    None => !body_logging_enabled,
                }),
            Err(e) => headers_result_matches(
                Err(e),
                render_headers_spec(preview_header_pairs(*request, *strategy, session_value@), prompt@, seq![], pairs_view(env@), false),
            ) || (render_headers_spec(preview_header_pairs(*request, *strategy, session_value@), prompt@, seq![], pairs_view(env@), false) is Ok
                && body_matches(Err(e), body_text_spec(*request, prompt@, *strategy, session_value@, pairs_view(env@)))),
        },
{
    let headers = match render_preview_headers(request, strategy, session_value, prompt, env) {
        Ok(h) => h,
        Err(e) => {
            return Err(e);
        },
    };
    let body = match render_body_text(request, prompt, strategy, session_value, env) {
        Ok(b) => b,
        Err(e) => {
            return Err(e);
        },
    };
    let bytes = utf8_of(body.as_str());
    let body_size = bytes.len() as u64;
    let body_text = if body_logging_enabled {
        Some(limit_body_for_log(bytes))
    } else {
        None
    };
    Ok(RequestLogPayload { headers, body_size, body_text })
}

/// The size in bytes of a request body, estimated for the attempt record:
/// the rendered body (JSON and form bodies as JSON text, a text body's
/// string, or another value's JSON text), or the unrendered text when the
/// template does not render.
pub open spec fn estimate_spec(req: Request, prompt: Seq<char>, env: Seq<(Seq<char>, Seq<char>)>) -> Seq<char> {
    let text = match req.body_format {
        BodyFormat::Json | BodyFormat::Form => json_text(req.body),
        _ => match req.body {
            JsonValue::Str(s) => s@,
            _ => json_text(req.body),
        },
    };
    match render_spec(text, prompt, seq![], env) {
        Ok(t) => t,
        Err(_) => text,
    }
}

/// Estimates a request body's size in bytes for the attempt record.
pub fn estimate_request_body_size(request: &Request, prompt: &str, env: &Pairs) -> (n: u64)
    ensures
        exists|s: String| s@ == estimate_spec(*request, prompt@, pairs_view(env@)) && n == vstd::utf8::encode_utf8(s@).len(),
{
    let text = match request.body_format {
        BodyFormat::Json | BodyFormat::Form => to_json_text(&request.body),
        _ => match &request.body {
            JsonValue::Str(s) => s.clone(),
            other => to_json_text(other),
        },
    };
    let out = match render(text.as_str(), prompt, env) {
        Ok(t) => t,
        Err(_) => text,
    };
    let n = utf8_of(out.as_str()).len() as u64;
    assert(out@ == estimate_spec(*request, prompt@, pairs_view(env@)));
    assert(n == vstd::utf8::encode_utf8(out@).len());
    n
}

} // verus!
