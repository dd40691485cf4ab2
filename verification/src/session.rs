//! How state is carried between the steps of one session.
use vstd::prelude::*;

use crate::text::{owned, str_eq};

verus! {

/// Strategy for carrying state across the steps of one session.
#[derive(Debug, Clone, PartialEq, Eq)]
pub enum SessionStrategy {
    /// No shared state between steps.
    Stateless,
    /// Share cookies across steps with the same session label.
    Cookie,
    /// Carry a token in a named request header.
    Header { header_name: String },
    /// Inject a token into the request body as a named field.
    BodyField { field_name: String },
}

/// The strategy a request editor's mode string selects: `cookie`,
/// `header` (field defaulting to `X-Session-Id`), `body_field` (field
/// defaulting to `session_id`); anything else means no session state.
pub open spec fn session_strategy_spec(strategy: Seq<char>, field: Option<Seq<char>>) -> SessionStrategyView {
    if strategy == "cookie"@ {
        SessionStrategyView::Cookie
    } else if strategy == "header"@ {
        SessionStrategyView::Header(
            match field {
                Some(f) => f,
                None => "X-Session-Id"@,
            },
        )
    } else if strategy == "body_field"@ {
        SessionStrategyView::BodyField(
            match field {
                Some(f) => f,
                None => "session_id"@,
            },
        )
    } else {
        SessionStrategyView::Stateless
    }
}

/// A session strategy as a value of plain sequences.
pub enum SessionStrategyView {
    Stateless,
    Cookie,
    Header(Seq<char>),
    BodyField(Seq<char>),
}

impl View for SessionStrategy {
    type V = SessionStrategyView;

    open spec fn view(&self) -> SessionStrategyView {
        match self {
            SessionStrategy::Stateless => SessionStrategyView::Stateless,
            SessionStrategy::Cookie => SessionStrategyView::Cookie,
            SessionStrategy::Header { header_name } => SessionStrategyView::Header(header_name@),
            SessionStrategy::BodyField { field_name } => SessionStrategyView::BodyField(field_name@),
        }
    }
}

pub open spec fn option_view(o: Option<String>) -> Option<Seq<char>> {
    match o {
        Some(s) => Some(s@),
        None => None,
    }
}

/// The session strategy named by a request editor's mode and field.
pub fn parse_session_strategy(strategy: &str, field: Option<String>) -> (r: SessionStrategy)
    ensures
        r@ == session_strategy_spec(strategy@, option_view(field)),
{
    proof {
        reveal_strlit("X-Session-Id");
        reveal_strlit("session_id");
    }
    if str_eq(strategy, "cookie") {
        SessionStrategy::Cookie
    } else if str_eq(strategy, "header") {
        let header_name = match field {
            Some(f) => f,
            None => owned("X-Session-Id"),
        };
        SessionStrategy::Header { header_name }
    } else if str_eq(strategy, "body_field") {
        let field_name = match field {
            Some(f) => f,
            None => owned("session_id"),
        };
        SessionStrategy::BodyField { field_name }
    } else {
        SessionStrategy::Stateless
    }
}

} // verus!
