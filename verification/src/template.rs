//! Request templates: `{{ prompt }}`, `{{ <request_id>.<bind> }}` and
//! `{{ env.VAR }}` substitution through minijinja.
//!
//! Auto-escaping is off (payloads are literal attack strings), trailing
//! newlines are kept, and no loader is installed. The context a template
//! sees is `prompt` (the payload), `env` (the environment variables handed
//! in by the caller) and one object per producing request in the bind
//! cache. Payloads are substituted as opaque strings, never re-rendered.
use vstd::prelude::*;

use crate::error::RunnerError;
use crate::canary::{skip_blanks, skip_blanks_exec};
use crate::text::{owned, str_eq};
use crate::wrappers::{has_no_open_brace, jinja_render, render_template};

verus! {

/// A list of `(name, value)` string pairs: headers, environment
/// variables, the binds of one request.
pub type Pairs = Vec<(String, String)>;

/// Bind cache: for each producing request id, the values it has bound,
/// by bind name.
pub type BindCache = Vec<(String, Pairs)>;

pub open spec fn pairs_view(v: Seq<(String, String)>) -> Seq<(Seq<char>, Seq<char>)> {
    v.map_values(|p: (String, String)| (p.0@, p.1@))
}

/// The names of a list of pairs, in order. Headers keep no name twice:
/// where a list comes in with distinct names, it goes out with distinct
/// names.
pub open spec fn keys_of(h: Seq<(Seq<char>, Seq<char>)>) -> Seq<Seq<char>> {
    h.map_values(|p: (Seq<char>, Seq<char>)| p.0)
}

pub open spec fn groups_view(v: Seq<(String, Pairs)>) -> Seq<(Seq<char>, Seq<(Seq<char>, Seq<char>)>)> {
    v.map_values(|g: (String, Pairs)| (g.0@, pairs_view(g.1@)))
}

/// Request ids that cannot name a bind group, because the names are
/// taken by the payload and the environment.
pub open spec fn is_reserved_name(id: Seq<char>) -> bool {
    id == "env"@ || id == "prompt"@
}

/// The bind groups that reach the template: all but those under a
/// reserved name, in order.
pub open spec fn visible_groups(binds: Seq<(Seq<char>, Seq<(Seq<char>, Seq<char>)>)>) -> Seq<
    (Seq<char>, Seq<(Seq<char>, Seq<char>)>),
>
    decreases binds.len(),
{
    if binds.len() == 0 {
        seq![]
    } else if is_reserved_name(binds.last().0) {
        visible_groups(binds.drop_last())
    } else {
        visible_groups(binds.drop_last()).push(binds.last())
    }
}

/// The objects of the render context besides `prompt`: `env` first, then
/// the visible bind groups.
pub open spec fn context_objects(
    binds: Seq<(Seq<char>, Seq<(Seq<char>, Seq<char>)>)>,
    env: Seq<(Seq<char>, Seq<char>)>,
) -> Seq<(Seq<char>, Seq<(Seq<char>, Seq<char>)>)> {
    seq![("env"@, env)] + visible_groups(binds)
}

/// What `render_with` returns: minijinja's output, or its error message
/// as a template error.
pub open spec fn render_spec(
    template: Seq<char>,
    payload: Seq<char>,
    binds: Seq<(Seq<char>, Seq<(Seq<char>, Seq<char>)>)>,
    env: Seq<(Seq<char>, Seq<char>)>,
) -> Result<Seq<char>, Seq<char>> {
    jinja_render(template, payload, context_objects(binds, env))
}

pub open spec fn result_matches(r: Result<String, RunnerError>, s: Result<Seq<char>, Seq<char>>) -> bool {
    match (r, s) {
        (Ok(out), Ok(t)) => out@ == t,
        (Err(RunnerError::Template { message }), Err(m)) => message@ == m,
        _ => false,
    }
}

pub fn copy_pairs(v: &Vec<(String, String)>) -> (r: Vec<(String, String)>)
    ensures
        pairs_view(r@) == pairs_view(v@),
{
    let mut r: Vec<(String, String)> = Vec::new();
    let mut i: usize = 0;
    while i < v.len()
        invariant
            i <= v.len(),
            pairs_view(r@) == pairs_view(v@).take(i as int),
        decreases v.len() - i,
    {
        let ghost prev = r@;
        r.push((v[i].0.clone(), v[i].1.clone()));
        assert(pairs_view(r@) =~= pairs_view(prev).push((v@[i as int].0@, v@[i as int].1@)));
        assert(pairs_view(v@).take(i + 1) =~= pairs_view(v@).take(i as int).push(
            pairs_view(v@)[i as int],
        ));
        i += 1;
    }
    assert(pairs_view(v@).take(v.len() as int) =~= pairs_view(v@));
    r
}

proof fn lemma_visible_groups_push(
    binds: Seq<(Seq<char>, Seq<(Seq<char>, Seq<char>)>)>,
    g: (Seq<char>, Seq<(Seq<char>, Seq<char>)>),
)
    ensures
        visible_groups(binds.push(g)) == if is_reserved_name(g.0) {
            visible_groups(binds)
        } else {
            visible_groups(binds).push(g)
        },
{
    assert(binds.push(g).drop_last() =~= binds);
}

fn reserved_name(id: &str) -> (r: bool)
    ensures
        r == is_reserved_name(id@),
{
    str_eq(id, "env") || str_eq(id, "prompt")
}

fn context_groups(binds: &BindCache, env: &Pairs) -> (r: BindCache)
    ensures
        groups_view(r@) == context_objects(groups_view(binds@), pairs_view(env@)),
{
    let mut r: BindCache = Vec::new();
    r.push((owned("env"), copy_pairs(env)));
    assert(groups_view(r@) =~= seq![("env"@, pairs_view(env@))]);
    let mut i: usize = 0;
    while i < binds.len()
        invariant
            i <= binds.len(),
            groups_view(r@) == seq![("env"@, pairs_view(env@))] + visible_groups(
                groups_view(binds@).take(i as int),
            ),
        decreases binds.len() - i,
    {
        let ghost g = groups_view(binds@)[i as int];
        proof {
            assert(groups_view(binds@).take(i + 1) =~= groups_view(binds@).take(i as int).push(g));
            lemma_visible_groups_push(groups_view(binds@).take(i as int), g);
        }
        if !reserved_name(binds[i].0.as_str()) {
            let ghost prev = r@;
            r.push((binds[i].0.clone(), copy_pairs(&binds[i].1)));
            assert(groups_view(r@) =~= groups_view(prev).push(g));
        }
        i += 1;
    }
    assert(groups_view(binds@).take(binds.len() as int) =~= groups_view(binds@));
    r
}

proof fn lemma_no_prompt_object(
    binds: Seq<(Seq<char>, Seq<(Seq<char>, Seq<char>)>)>,
    env: Seq<(Seq<char>, Seq<char>)>,
)
    ensures
        forall|k: int|
            0 <= k < context_objects(binds, env).len() ==> (#[trigger] context_objects(binds, env)[k]).0
                != "prompt"@,
    decreases binds.len(),
{
    reveal_strlit("env");
    reveal_strlit("prompt");
    assert("env"@ != "prompt"@) by {
        assert("env"@.len() != "prompt"@.len());
    }
    if binds.len() > 0 {
        lemma_no_prompt_object(binds.drop_last(), env);
        let prev = seq![("env"@, env)] + visible_groups(binds.drop_last());
        assert forall|k: int| 0 <= k < context_objects(binds, env).len() implies (#[trigger] context_objects(
            binds,
            env,
        )[k]).0 != "prompt"@ by {
            if k < prev.len() {
                assert(context_objects(binds.drop_last(), env)[k] == prev[k]);
                assert(context_objects(binds, env)[k] == prev[k]);
            }
        }
    }
}

/// Renders `template` with `{{ prompt }}` bound to `payload`, each visible
/// bind group of `binds` bound under its request id, and `env` bound to
/// the given environment variables. Text without a `{` comes back as it
/// is, and the payload is substituted verbatim, neither escaped nor
/// rendered again.
pub fn render_with(template: &str, payload: &str, binds: &BindCache, env: &Pairs) -> (r: Result<
    String,
    RunnerError,
>)
    ensures
        result_matches(r, render_spec(template@, payload@, groups_view(binds@), pairs_view(env@))),
        has_no_open_brace(template@) ==> (r matches Ok(s) && s@ == template@),
        forall|a: Seq<char>, b: Seq<char>|
            #![trigger has_no_open_brace(a), has_no_open_brace(b)]
            has_no_open_brace(a) && has_no_open_brace(b) && template@ == a + "{{ prompt }}"@ + b ==> (r matches Ok(
                s,
            ) && s@ == a + payload@ + b),
{
    let objects = context_groups(binds, env);
    proof {
        lemma_no_prompt_object(groups_view(binds@), pairs_view(env@));
        assert forall|k: int| 0 <= k < objects@.len() implies objects@[k].0@ != "prompt"@ by {
            assert(groups_view(objects@)[k].0 == objects@[k].0@);
        }
    }
    match render_template(template, payload, &objects) {
        Ok(s) => Ok(s),
        Err(message) => Err(RunnerError::Template { message }),
    }
}

/// Renders `template` with `{{ prompt }}` bound to `payload` and no bind
/// groups.
pub fn render(template: &str, payload: &str, env: &Pairs) -> (r: Result<String, RunnerError>)
    ensures
        result_matches(r, render_spec(template@, payload@, seq![], pairs_view(env@))),
        has_no_open_brace(template@) ==> (r matches Ok(s) && s@ == template@),
        forall|a: Seq<char>, b: Seq<char>|
            #![trigger has_no_open_brace(a), has_no_open_brace(b)]
            has_no_open_brace(a) && has_no_open_brace(b) && template@ == a + "{{ prompt }}"@ + b ==> (r matches Ok(
                s,
            ) && s@ == a + payload@ + b),
{
    let binds: BindCache = Vec::new();
    assert(groups_view(binds@) =~= seq![]);
    render_with(template, payload, &binds, env)
}

/// Whether a `{{ prompt }}` marker starts at `i` in `s` (any whitespace
/// may stand inside the braces).
pub open spec fn prompt_marker_at(s: Seq<char>, i: int) -> bool {
    &&& 0 <= i
    &&& i + 1 < s.len()
    &&& s[i] == '{'
    &&& s[i + 1] == '{'
    &&& {
        let j = skip_blanks(s, i + 2);
        &&& j + 6 <= s.len()
        &&& s.subrange(j, j + 6) == "prompt"@
        &&& {
            let k = skip_blanks(s, j + 6);
            k + 1 < s.len() && s[k] == '}' && s[k + 1] == '}'
        }
    }
}

/// Whether `s` holds a `{{ prompt }}` marker.
pub open spec fn has_prompt_marker(s: Seq<char>) -> bool {
    exists|i: int| 0 <= i < s.len() && #[trigger] prompt_marker_at(s, i)
}

fn prompt_marker_at_exec(v: &Vec<char>, i: usize) -> (r: bool)
    requires
        i < v.len(),
    ensures
        r == prompt_marker_at(v@, i as int),
{
    if i + 1 < v.len() && v[i] == '{' && v[i + 1] == '{' {
        let j = skip_blanks_exec(v, i + 2);
        if v.len() - j >= 6 {
            let w = crate::text::string_from_chars(v, j, j + 6);
            if str_eq(w.as_str(), "prompt") {
                let k = skip_blanks_exec(v, j + 6);
                return k < v.len() && v.len() - k > 1 && v[k] == '}' && v[k + 1] == '}';
            }
        }
    }
    false
}

/// Whether `s` holds a `{{ prompt }}` marker.
pub fn holds_prompt_marker(s: &str) -> (r: bool)
    ensures
        r == has_prompt_marker(s@),
{
    let v = crate::text::chars_of(s);
    let mut i: usize = 0;
    while i < v.len()
        invariant
            v@ == s@,
            i <= v.len(),
            forall|k: int| 0 <= k < i ==> !#[trigger] prompt_marker_at(s@, k),
        decreases v.len() - i,
    {
        if prompt_marker_at_exec(&v, i) {
            return true;
        }
        i += 1;
    }
    false
}

/// Header values rendered one by one, names kept; with `all` false only the
/// values holding a `{{ prompt }}` marker are rendered and the others are
/// kept as they are. The first header whose value fails to render decides
/// the error.
pub open spec fn render_headers_spec(
    headers: Seq<(Seq<char>, Seq<char>)>,
    payload: Seq<char>,
    binds: Seq<(Seq<char>, Seq<(Seq<char>, Seq<char>)>)>,
    env: Seq<(Seq<char>, Seq<char>)>,
    all: bool,
) -> Result<Seq<(Seq<char>, Seq<char>)>, Seq<char>>
    decreases headers.len(),
{
    if headers.len() == 0 {
        Ok(seq![])
    } else {
        match render_headers_spec(headers.drop_last(), payload, binds, env, all) {
            Err(m) => Err(m),
            Ok(done) => if all || has_prompt_marker(headers.last().1) {
                match render_spec(headers.last().1, payload, binds, env) {
                    Err(m) => Err(m),
                    Ok(v) => Ok(done.push((headers.last().0, v))),
                }
            } else {
                Ok(done.push(headers.last()))
            },
        }
    }
}

pub open spec fn headers_result_matches(
    r: Result<Pairs, RunnerError>,
    s: Result<Seq<(Seq<char>, Seq<char>)>, Seq<char>>,
) -> bool {
    match (r, s) {
        (Ok(out), Ok(t)) => pairs_view(out@) == t,
        (Err(RunnerError::Template { message }), Err(m)) => message@ == m,
        _ => false,
    }
}

fn render_header_values(headers: &Pairs, payload: &str, binds: &BindCache, env: &Pairs, all: bool) -> (r:
    Result<Pairs, RunnerError>)
    ensures
        headers_result_matches(
            r,
            render_headers_spec(pairs_view(headers@), payload@, groups_view(binds@), pairs_view(env@), all),
        ),
{
    let mut out: Pairs = Vec::new();
    let mut i: usize = 0;
    assert(pairs_view(headers@).take(0) =~= seq![]);
    assert(pairs_view(out@) =~= seq![]);
    while i < headers.len()
        invariant
            i <= headers.len(),
            render_headers_spec(
                pairs_view(headers@).take(i as int),
                payload@,
                groups_view(binds@),
                pairs_view(env@),
                all,
            ) == Ok::<Seq<(Seq<char>, Seq<char>)>, Seq<char>>(pairs_view(out@)),
        decreases headers.len() - i,
    {
        let ghost hv = pairs_view(headers@);
        assert(hv.take(i + 1).drop_last() =~= hv.take(i as int));
        assert(hv.take(i + 1).last() == hv[i as int]);
        if all || holds_prompt_marker(headers[i].1.as_str()) {
            let rendered = render_with(headers[i].1.as_str(), payload, binds, env);
            match rendered {
                Ok(v) => {
                    let ghost prev = out@;
                    out.push((headers[i].0.clone(), v));
                    assert(pairs_view(out@) =~= pairs_view(prev).push((hv[i as int].0, out@.last().1@)));
                },
                Err(e) => {
                    proof {
                        lemma_headers_error_sticks(hv, i as int + 1, payload@, groups_view(binds@), pairs_view(env@), all);
                    }
                    return Err(e);
                },
            }
        } else {
            let ghost prev = out@;
            out.push((headers[i].0.clone(), headers[i].1.clone()));
            assert(pairs_view(out@) =~= pairs_view(prev).push(hv[i as int]));
        }
        i += 1;
    }
    assert(pairs_view(headers@).take(headers.len() as int) =~= pairs_view(headers@));
    Ok(out)
}

/// Renders every header value with the bind cache in scope (a value may
/// name a bind without naming the prompt).
pub fn render_headers_with(headers: &Pairs, payload: &str, binds: &BindCache, env: &Pairs) -> (r:
    Result<Pairs, RunnerError>)
    ensures
        headers_result_matches(
            r,
            render_headers_spec(pairs_view(headers@), payload@, groups_view(binds@), pairs_view(env@), true),
        ),
        r matches Ok(out) ==> keys_of(pairs_view(out@)) == keys_of(pairs_view(headers@)),
{
    proof {
        lemma_rendered_keys(pairs_view(headers@), payload@, groups_view(binds@), pairs_view(env@), true);
    }
    render_header_values(headers, payload, binds, env, true)
}

proof fn lemma_rendered_keys(
    hv: Seq<(Seq<char>, Seq<char>)>,
    payload: Seq<char>,
    binds: Seq<(Seq<char>, Seq<(Seq<char>, Seq<char>)>)>,
    env: Seq<(Seq<char>, Seq<char>)>,
    all: bool,
)
    ensures
        render_headers_spec(hv, payload, binds, env, all) matches Ok(t) ==> keys_of(t) == keys_of(hv),
    decreases hv.len(),
{
    if hv.len() > 0 {
        lemma_rendered_keys(hv.drop_last(), payload, binds, env, all);
        if let Ok(t) = render_headers_spec(hv, payload, binds, env, all) {
            let d = render_headers_spec(hv.drop_last(), payload, binds, env, all)->Ok_0;
            assert(keys_of(t) =~= keys_of(d).push(hv.last().0));
            assert(keys_of(hv) =~= keys_of(hv.drop_last()).push(hv.last().0));
        }
    } else {
        assert(keys_of(hv) =~= Seq::<Seq<char>>::empty());
        if let Ok(t) = render_headers_spec(hv, payload, binds, env, all) {
            assert(keys_of(t) =~= Seq::<Seq<char>>::empty());
        }
    }
}

/// Once a prefix of the headers fails to render, every longer prefix fails
/// with the same message.
proof fn lemma_headers_error_sticks(
    hv: Seq<(Seq<char>, Seq<char>)>,
    n: int,
    payload: Seq<char>,
    binds: Seq<(Seq<char>, Seq<(Seq<char>, Seq<char>)>)>,
    env: Seq<(Seq<char>, Seq<char>)>,
    all: bool,
)
    requires
        0 < n <= hv.len(),
        render_headers_spec(hv.take(n), payload, binds, env, all) is Err,
    ensures
        render_headers_spec(hv, payload, binds, env, all) == render_headers_spec(hv.take(n), payload, binds, env, all),
    decreases hv.len() - n,
{
    if n < hv.len() {
        assert(hv.take(n + 1).drop_last() =~= hv.take(n));
        lemma_headers_error_sticks(hv, n + 1, payload, binds, env, all);
    } else {
        assert(hv.take(n) =~= hv);
    }
}

/// Renders each header value that holds `{{ prompt }}`, with the prompt
/// bound to `payload`; other values are kept as they are.
pub fn render_headers(headers: &Pairs, payload: &str, env: &Pairs) -> (r: Result<Pairs, RunnerError>)
    ensures
        headers_result_matches(
            r,
            render_headers_spec(pairs_view(headers@), payload@, seq![], pairs_view(env@), false),
        ),
        r matches Ok(out) ==> keys_of(pairs_view(out@)) == keys_of(pairs_view(headers@)),
{
    let binds: BindCache = Vec::new();
    assert(groups_view(binds@) =~= seq![]);
    proof {
        lemma_rendered_keys(pairs_view(headers@), payload@, seq![], pairs_view(env@), false);
    }
    render_header_values(headers, payload, &binds, env, false)
}

} // verus!
