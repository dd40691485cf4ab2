//! What a request sends besides its template: the credentials its auth
//! names, read from the environment, and the session token a session
//! strategy places in a header or in the JSON body.
use vstd::prelude::*;

use crate::binds::{find_pair, first_key, lemma_first_key, lemma_pairs_set_keeps_names_distinct, pairs_set};
use crate::deps::AuthConfig;
use crate::error::RunnerError;
use crate::json::JsonValue;
use crate::json_template::{entries_view, insert_member, object_insert};
use crate::session::SessionStrategy;
use crate::template::{keys_of, pairs_view, Pairs};
use crate::text::owned;

verus! {

/// The credentials to attach to a request.
#[derive(Debug)]
pub enum AuthAction {
    NoAuth,
    /// `Authorization: Bearer <token>`.
    Bearer { token: String },
    /// HTTP basic authentication.
    Basic { user: String, password: String },
    /// A header of the request's own naming.
    Header { name: String, value: String },
}

/// The value of environment variable `name`, if set.
pub open spec fn env_value(env: Seq<(Seq<char>, Seq<char>)>, name: Seq<char>) -> Option<Seq<char>> {
    match first_key(env, name) {
        Some(k) => Some(env[k].1),
        None => None,
    }
}

/// What resolving an auth config gives: the credentials, or the first
/// environment variable it names that is not set.
pub open spec fn auth_resolves(
    auth: AuthConfig,
    env: Seq<(Seq<char>, Seq<char>)>,
    r: Result<AuthAction, RunnerError>,
) -> bool {
    match auth {
        AuthConfig::NoAuth => r matches Ok(AuthAction::NoAuth),
        AuthConfig::Bearer { token_env } => match env_value(env, token_env@) {
            Some(t) => r matches Ok(AuthAction::Bearer { token }) && token@ == t,
            None => r matches Err(RunnerError::MissingEnvVar { var }) && var@ == token_env@,
        },
        AuthConfig::Basic { user_env, password_env } => match (env_value(env, user_env@), env_value(env, password_env@)) {
            (None, _) => r matches Err(RunnerError::MissingEnvVar { var }) && var@ == user_env@,
            (Some(_), None) => r matches Err(RunnerError::MissingEnvVar { var }) && var@ == password_env@,
            (Some(u), Some(p)) => r matches Ok(AuthAction::Basic { user, password }) && user@ == u && password@ == p,
        },
        AuthConfig::CustomHeader { header_name, value_env } => match env_value(env, value_env@) {
            Some(v) => r matches Ok(AuthAction::Header { name, value }) && name@ == header_name@ && value@ == v,
            None => r matches Err(RunnerError::MissingEnvVar { var }) && var@ == value_env@,
        },
    }
}

fn lookup_env(env: &Pairs, name: &str) -> (r: Option<String>)
    ensures
        match r {
            Some(v) => env_value(pairs_view(env@), name@) == Some(v@),
            None => env_value(pairs_view(env@), name@) is None,
        },
{
    proof {
        lemma_first_key(pairs_view(env@), name@);
    }
    match find_pair(env, name) {
        Some(k) => {
            assert(pairs_view(env@)[k as int].1 == env@[k as int].1@);
            Some(env[k].1.clone())
        },
        None => None,
    }
}

fn missing(var: &String) -> (e: RunnerError)
    ensures
        e matches RunnerError::MissingEnvVar { var: v } && v@ == var@,
{
    RunnerError::MissingEnvVar { var: var.clone() }
}

/// Reads the credentials an auth config names from the environment
/// variables `env`. A variable that is not set is an error naming it.
pub fn apply_auth(auth: &AuthConfig, env: &Pairs) -> (r: Result<AuthAction, RunnerError>)
    ensures
        auth_resolves(*auth, pairs_view(env@), r),
{
    match auth {
        AuthConfig::NoAuth => Ok(AuthAction::NoAuth),
        AuthConfig::Bearer { token_env } => match lookup_env(env, token_env.as_str()) {
            Some(token) => Ok(AuthAction::Bearer { token }),
            None => Err(missing(token_env)),
        },
        AuthConfig::Basic { user_env, password_env } => {
            let user = match lookup_env(env, user_env.as_str()) {
                Some(u) => u,
                None => {
                    return Err(missing(user_env));
                },
            };
            match lookup_env(env, password_env.as_str()) {
                Some(password) => Ok(AuthAction::Basic { user, password }),
                None => Err(missing(password_env)),
            }
        },
        AuthConfig::CustomHeader { header_name, value_env } => match lookup_env(env, value_env.as_str()) {
            Some(value) => Ok(AuthAction::Header { name: header_name.clone(), value }),
            None => Err(missing(value_env)),
        },
    }
}

/// Sets header `name` as a map insert does: an existing header of that
/// exact name takes the value, otherwise the header is added last.
pub fn set_header(headers: &mut Pairs, name: &str, value: &str)
    ensures
        pairs_view(final(headers)@) == pairs_set(pairs_view(old(headers)@), name@, value@),
        keys_of(pairs_view(old(headers)@)).no_duplicates() ==> keys_of(pairs_view(final(headers)@)).no_duplicates(),
{
    let ghost before = pairs_view(headers@);
    proof {
        lemma_first_key(before, name@);
        if keys_of(before).no_duplicates() {
            lemma_pairs_set_keeps_names_distinct(before, name@, value@);
        }
    }
    match find_pair(headers, name) {
        Some(k) => {
            headers.set(k, (owned(name), owned(value)));
        },
        None => {
            headers.push((owned(name), owned(value)));
        },
    }
    assert(pairs_view(headers@) =~= pairs_set(before, name@, value@));
}

/// Under the header strategy, the session token goes in its header;
/// other strategies leave the headers as they are.
pub fn apply_session_header(headers: &mut Pairs, strategy: &SessionStrategy, session_value: &str)
    ensures
        match *strategy {
            SessionStrategy::Header { header_name } => pairs_view(final(headers)@) == pairs_set(
                pairs_view(old(headers)@),
                header_name@,
                session_value@,
            ),
            _ => final(headers)@ == old(headers)@,
        },
{
    match strategy {
        SessionStrategy::Header { header_name } => set_header(headers, header_name.as_str(), session_value),
        _ => {},
    }
}

/// Under the body-field strategy, a JSON object body gets the session
/// token as a string member of the field's name (replacing one of that
/// name); any other body or strategy is sent as it is.
pub fn inject_session_body_field(body: JsonValue, strategy: &SessionStrategy, session_value: &str) -> (r: JsonValue)
    ensures
        match (*strategy, body) {
            (SessionStrategy::BodyField { field_name }, JsonValue::Object(ms)) => r matches JsonValue::Object(out)
                && exists|s: String| s@ == session_value@ && entries_view(out@) == object_insert(
                    entries_view(ms@),
                    field_name@,
                    JsonValue::Str(s),
                ),
            _ => r == body,
        },
{
    match strategy {
        SessionStrategy::BodyField { field_name } => match body {
            JsonValue::Object(ms) => {
                let mut ms = ms;
                let s = owned(session_value);
                let ghost sv = s;
                insert_member(&mut ms, field_name.clone(), JsonValue::Str(s));
                JsonValue::Object(ms)
            },
            other => other,
        },
        _ => body,
    }
}

} // verus!
