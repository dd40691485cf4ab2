//! Reading the answer out of a response body: the whole body, a JSONPath
//! query, or a regex capture.
use vstd::prelude::*;

use crate::error::RunnerError;
use crate::text::{owned, push_str};
use crate::wrappers::{
    groups_view, jsonpath_first, jsonpath_first_of, lossy_utf8, regex_captures,
    regex_captures_of, utf8_lossy,
};

verus! {

/// How a request's answer is read from its response body.
#[derive(Debug, Clone, PartialEq, Eq)]
pub enum ExtractConfig {
    /// The whole body, as text.
    Raw,
    /// The first node a JSONPath selects.
    Jsonpath { path: String },
    /// Capture group 1 of a regex match, or the whole match without one.
    Regex { pattern: String },
}

/// The text a regex match yields: group 1 when it took part, else the
/// whole match.
pub open spec fn capture_text(groups: Seq<Option<Seq<char>>>) -> Seq<char> {
    if groups.len() > 1 && groups[1] is Some {
        groups[1]->Some_0
    } else {
        groups[0]->Some_0
    }
}

/// What `extract` gives for a body: `Ok(None)` when the query selects
/// nothing, the extraction error message otherwise.
pub open spec fn extract_spec(body: Seq<u8>, config: ExtractConfig) -> Result<Option<Seq<char>>, Seq<char>> {
    match config {
        ExtractConfig::Raw => Ok(Some(lossy_utf8(body))),
        ExtractConfig::Jsonpath { path } => match jsonpath_first_of(body, path@) {
            Ok(hit) => Ok(hit),
            Err((false, m)) => Err("body is not JSON: "@ + m),
            Err((true, m)) => Err("invalid JSONPath '"@ + path@ + "': "@ + m),
        },
        ExtractConfig::Regex { pattern } => match regex_captures_of(pattern@, lossy_utf8(body)) {
            Err(m) => Err("invalid regex '"@ + pattern@ + "': "@ + m),
            Ok(None) => Ok(None),
            Ok(Some(groups)) => Ok(Some(capture_text(groups))),
        },
    }
}

pub open spec fn extracted_matches(r: Result<Option<String>, RunnerError>, s: Result<Option<Seq<char>>, Seq<char>>) -> bool {
    match (r, s) {
        (Ok(Some(v)), Ok(Some(t))) => v@ == t,
        (Ok(None), Ok(None)) => true,
        (Err(RunnerError::Extraction { reason }), Err(m)) => reason@ == m,
        _ => false,
    }
}

/// Reads the answer out of a response body.
pub fn extract(body: &[u8], config: &ExtractConfig) -> (r: Result<Option<String>, RunnerError>)
    ensures
        extracted_matches(r, extract_spec(body@, *config)),
{
    match config {
        ExtractConfig::Raw => Ok(Some(utf8_lossy(body))),
        ExtractConfig::Jsonpath { path } => match jsonpath_first(body, path.as_str()) {
            Ok(hit) => Ok(hit),
            Err((bad_path, m)) => {
                let reason = if bad_path {
                    let mut r = owned("invalid JSONPath '");
                    push_str(&mut r, path.as_str());
                    push_str(&mut r, "': ");
                    push_str(&mut r, m.as_str());
                    r
                } else {
                    let mut r = owned("body is not JSON: ");
                    push_str(&mut r, m.as_str());
                    r
                };
                Err(RunnerError::Extraction { reason })
            },
        },
        ExtractConfig::Regex { pattern } => {
            let text = utf8_lossy(body);
            match regex_captures(pattern.as_str(), text.as_str()) {
                Err(m) => {
                    let mut reason = owned("invalid regex '");
                    push_str(&mut reason, pattern.as_str());
                    push_str(&mut reason, "': ");
                    push_str(&mut reason, m.as_str());
                    Err(RunnerError::Extraction { reason })
                },
                Ok(None) => Ok(None),
                Ok(Some(groups)) => {
                    let ghost gv = groups_view(groups@);
                    assert(gv[0] == match groups@[0] {
                        Some(s) => Some(s@),
                        None => None,
                    });
                    if groups.len() > 1 && groups[1].is_some() {
                        assert(gv[1] == match groups@[1] {
                            Some(s) => Some(s@),
                            None => None,
                        });
                        Ok(groups[1].clone())
                    } else {
                        proof {
                            if groups@.len() > 1 {
                                assert(gv[1] == match groups@[1] {
                                    Some(s) => Some(s@),
                                    None => None,
                                });
                            }
                        }
                        Ok(groups[0].clone())
                    }
                },
            }
        },
    }
}

} // verus!
