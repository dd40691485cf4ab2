//! Error types: the runner's, and the one commands report.
use vstd::prelude::*;

verus! {

/// Why a run step failed. Network and storage failures are reported by
/// the application layer that performs them; the library reports the
/// failures of its own logic.
#[derive(Debug, Clone, PartialEq, Eq)]
pub enum RunnerError {
    /// minijinja rejected the template or failed to render it.
    Template { message: String },
    /// A value could not be extracted, or a request dependency is broken.
    Extraction { reason: String },
    /// A credential was to come from an environment variable that is unset.
    MissingEnvVar { var: String },
}

impl RunnerError {
    /// The message shown to the user.
    pub fn message(&self) -> (r: String)
        ensures
            r@ == self.message_spec(),
    {
        match self {
            RunnerError::Template { message } => crate::text::concat3(
                "template render failed: ",
                message.as_str(),
                "",
            ),
            RunnerError::Extraction { reason } => crate::text::concat3(
                "response extraction failed: ",
                reason.as_str(),
                "",
            ),
            RunnerError::MissingEnvVar { var } => crate::text::concat3(
                "no token found for '",
                var.as_str(),
                "' \u{2014} paste one in the target editor or export the env var, then retry",
            ),
        }
    }

    pub open spec fn message_spec(&self) -> Seq<char> {
        match self {
            RunnerError::Template { message } => "template render failed: "@ + message@ + ""@,
            RunnerError::Extraction { reason } => "response extraction failed: "@ + reason@ + ""@,
            RunnerError::MissingEnvVar { var } => "no token found for '"@ + var@
                + "' \u{2014} paste one in the target editor or export the env var, then retry"@,
        }
    }
}

/// An error as commands hand it to the user interface: a kind and a
/// message, never a debug dump.
#[derive(Debug, Clone, PartialEq, Eq)]
pub struct CommandError {
    kind: &'static str,
    message: String,
}

impl CommandError {
    pub closed spec fn kind_text(&self) -> Seq<char> {
        self.kind@
    }

    pub closed spec fn message_text(&self) -> Seq<char> {
        self.message@
    }

    /// A failure of the storage layer, or of anything a command calls
    /// that reports a plain message.
    pub fn storage(message: String) -> (r: CommandError)
        ensures
            r.kind_text() == "storage"@,
            r.message_text() == message@,
    {
        CommandError { kind: "storage", message }
    }

    /// The kind, as the user interface switches on it.
    pub fn kind(&self) -> (r: &'static str)
        ensures
            r@ == self.kind_text(),
    {
        self.kind
    }

    /// The message shown to the user.
    pub fn message(&self) -> (r: &str)
        ensures
            r@ == self.message_text(),
    {
        self.message.as_str()
    }
}

} // verus!
