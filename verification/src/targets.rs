//! How a saved target shows in the target list: the labels of its
//! request's adapter, auth and session strategy, and the body and
//! response fields its prompt goes into and its answer comes from.
use vstd::prelude::*;

use crate::deps::{AdapterType, AuthConfig, Request};
use crate::extract::ExtractConfig;
use crate::json::JsonValue;
use crate::session::SessionStrategy;
use crate::text::{chars_of, owned, str_eq, string_from_chars};

verus! {

/// The labels and fields of a target that the target list shows.
#[derive(Debug)]
pub struct TargetFields {
    /// `openai_compat`, `custom_rest` or `raw_http`.
    pub endpoint_type: String,
    /// `none`, `bearer`, `basic` or `api_key`.
    pub auth_type: String,
    /// The variable holding the token, user or key.
    pub auth_env: Option<String>,
    /// The header an API key goes in.
    pub auth_header: Option<String>,
    /// `none`, `cookie`, `header` or `body_field`.
    pub session_strategy: String,
    pub session_field: Option<String>,
    /// The first body member other than `messages`.
    pub request_field: Option<String>,
    /// A JSONPath extract's path without its `$.` prefix.
    pub response_field: Option<String>,
}

pub open spec fn opt_view(o: Option<String>) -> Option<Seq<char>> {
    match o {
        Some(s) => Some(s@),
        None => None,
    }
}

pub open spec fn endpoint_label(a: AdapterType) -> Seq<char> {
    match a {
        AdapterType::OpenAiCompat => "openai_compat"@,
        AdapterType::RawHttp => "raw_http"@,
        AdapterType::CustomRest => "custom_rest"@,
    }
}

/// The auth type, the variable it reads and the header it sets.
pub open spec fn auth_fields(a: AuthConfig) -> (Seq<char>, Option<Seq<char>>, Option<Seq<char>>) {
    match a {
        AuthConfig::Bearer { token_env } => ("bearer"@, Some(token_env@), None),
        AuthConfig::Basic { user_env, .. } => ("basic"@, Some(user_env@), None),
        AuthConfig::CustomHeader { header_name, value_env } => ("api_key"@, Some(value_env@), Some(header_name@)),
        AuthConfig::NoAuth => ("none"@, None, None),
    }
}

pub open spec fn session_fields(s: SessionStrategy) -> (Seq<char>, Option<Seq<char>>) {
    match s {
        SessionStrategy::Stateless => ("none"@, None),
        SessionStrategy::Cookie => ("cookie"@, None),
        SessionStrategy::Header { header_name } => ("header"@, Some(header_name@)),
        SessionStrategy::BodyField { field_name } => ("body_field"@, Some(field_name@)),
    }
}

/// The first member key of an object body that is not `messages`.
pub open spec fn request_field_of(body: JsonValue) -> Option<Seq<char>> {
    match body {
        JsonValue::Object(ms) => if exists|k: int| 0 <= k < ms@.len() && (#[trigger] ms@[k]).0@ != "messages"@ {
            Some(
                ms@[choose|k: int|
                    0 <= k < ms@.len() && (#[trigger] ms@[k]).0@ != "messages"@ && forall|j: int|
                        0 <= j < k ==> (#[trigger] ms@[j]).0@ == "messages"@].0@,
            )
        } else {
            None
        },
        _ => None,
    }
}

/// A JSONPath extract's path after `$.`.
pub open spec fn response_field_of(e: ExtractConfig) -> Option<Seq<char>> {
    match e {
        ExtractConfig::Jsonpath { path } => if path@.len() >= 2 && path@[0] == '$' && path@[1] == '.' {
            Some(path@.skip(2))
        } else {
            None
        },
        _ => None,
    }
}

fn first_non_messages_key(ms: &Vec<(String, JsonValue)>) -> (r: Option<String>)
    ensures
        r matches Some(k) ==> exists|i: int|
            0 <= i < ms@.len() && ms@[i].0@ == k@ && k@ != "messages"@ && forall|j: int|
                0 <= j < i ==> (#[trigger] ms@[j]).0@ == "messages"@,
        r is None ==> forall|i: int| 0 <= i < ms@.len() ==> (#[trigger] ms@[i]).0@ == "messages"@,
{
    let mut i: usize = 0;
    while i < ms.len()
        invariant
            i <= ms@.len(),
            forall|j: int| 0 <= j < i ==> (#[trigger] ms@[j]).0@ == "messages"@,
        decreases ms@.len() - i,
    {
        if !str_eq(ms[i].0.as_str(), "messages") {
            return Some(ms[i].0.clone());
        }
        i += 1;
    }
    None
}

/// What the target list shows of a target whose request is `request` and
/// whose session strategy is `session`.
pub fn target_fields(request: &Request, session: &SessionStrategy) -> (r: TargetFields)
    ensures
        r.endpoint_type@ == endpoint_label(request.adapter),
        (r.auth_type@, opt_view(r.auth_env), opt_view(r.auth_header)) == auth_fields(request.auth),
        (r.session_strategy@, opt_view(r.session_field)) == session_fields(*session),
        opt_view(r.request_field) == request_field_of(request.body),
        opt_view(r.response_field) == response_field_of(request.extract),
{
    let endpoint_type = match request.adapter {
        AdapterType::OpenAiCompat => owned("openai_compat"),
        AdapterType::RawHttp => owned("raw_http"),
        AdapterType::CustomRest => owned("custom_rest"),
    };
    let (auth_type, auth_env, auth_header) = match &request.auth {
        AuthConfig::Bearer { token_env } => (owned("bearer"), Some(token_env.clone()), None),
        AuthConfig::Basic { user_env, .. } => (owned("basic"), Some(user_env.clone()), None),
        AuthConfig::CustomHeader { header_name, value_env } => (
            owned("api_key"),
            Some(value_env.clone()),
            Some(header_name.clone()),
        ),
        AuthConfig::NoAuth => (owned("none"), None, None),
    };
    let (session_strategy, session_field) = match session {
        SessionStrategy::Stateless => (owned("none"), None),
        SessionStrategy::Cookie => (owned("cookie"), None),
        SessionStrategy::Header { header_name } => (owned("header"), Some(header_name.clone())),
        SessionStrategy::BodyField { field_name } => (owned("body_field"), Some(field_name.clone())),
    };
    let request_field = match &request.body {
        JsonValue::Object(ms) => {
            let r = first_non_messages_key(ms);
            proof {
                if let Some(ref k) = r {
                    let i = choose|i: int|
                        0 <= i < ms@.len() && ms@[i].0@ == k@ && k@ != "messages"@ && forall|j: int|
                            0 <= j < i ==> (#[trigger] ms@[j]).0@ == "messages"@;
                    assert(0 <= i < ms@.len() && (ms@[i]).0@ != "messages"@);
                    let c = choose|c: int|
                        0 <= c < ms@.len() && (#[trigger] ms@[c]).0@ != "messages"@ && forall|j: int|
                            0 <= j < c ==> (#[trigger] ms@[j]).0@ == "messages"@;
                    assert(c == i) by {
                        if c < i {
                            assert(ms@[c].0@ == "messages"@);
                        }
                        if i < c {
                            assert(ms@[i].0@ == "messages"@);
                        }
                    }
                }
            }
            r
        },
        _ => None,
    };
    let response_field = match &request.extract {
        ExtractConfig::Jsonpath { path } => {
            let v = chars_of(path.as_str());
            if v.len() >= 2 && v[0] == '$' && v[1] == '.' {
                let rest = string_from_chars(&v, 2, v.len());
                assert(v@.subrange(2, v@.len() as int) =~= v@.skip(2));
                Some(rest)
            } else {
                None
            }
        },
        _ => None,
    };
    TargetFields {
        endpoint_type,
        auth_type,
        auth_env,
        auth_header,
        session_strategy,
        session_field,
        request_field,
        response_field,
    }
}

/// The auth source of a target that names none.
pub fn default_auth_source() -> (r: String)
    ensures
        r@ == "manual"@,
{
    owned("manual")
}

} // verus!
