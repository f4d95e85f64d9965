//! The errors that an engine and its rules report.

use vstd::prelude::*;

verus! {

/// Why a pass over the rules stopped early: the step that failed, with the
/// error that the rule itself gave. The engine wraps the rule's error and
/// never looks into it.
#[derive(Debug)]
pub enum RuleEngineError<E> {
    /// A rule's `evaluate` step failed.
    Evaluation(E),
    /// A rule's `apply` step failed.
    Application(E),
    /// A failure of neither kind. No engine pass produces it.
    Unknown,
}

/// Makes `std::io::Error` known to the verifier as a type whose values can be
/// carried around. Nothing is said of what such a value holds.
#[verifier::external_type_specification]
#[verifier::external_body]
pub struct ExIoError(std::io::Error);

/// A ready-made error type for rules that read outside data.
#[derive(Debug)]
pub enum RuleError {
    /// An input or output operation failed.
    Io(std::io::Error),
    /// The rule's own logic rejected its input; the text says why.
    Eval(String),
}

impl From<std::io::Error> for RuleError {
    /// An input or output error becomes [`RuleError::Io`].
    fn from(source: std::io::Error) -> (error: RuleError) {
        RuleError::Io(source)
    }
}

impl vstd::std_specs::convert::FromSpecImpl<std::io::Error> for RuleError {
    open spec fn obeys_from_spec() -> bool {
        true
    }

    open spec fn from_spec(source: std::io::Error) -> RuleError {
        RuleError::Io(source)
    }
}

} // verus!
