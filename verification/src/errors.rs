//! Structured errors surfaced by the store and the decision logic.

use vstd::prelude::*;

verus! {

/// Why a store operation or a request was refused.
///
/// `Validation` covers bad input, invariant violations and illegal state
/// transitions; `NotFound` covers look-ups of ids that do not exist.
#[derive(Debug, Clone)]
pub enum ConductorError {
    Validation(String),
    NotFound(String),
}

impl ConductorError {
    /// The human-readable text carried by the error.
    pub fn message(&self) -> (r: &str)
        ensures
            r@ == self.spec_message(),
    {
        match self {
            ConductorError::Validation(m) => m.as_str(),
            ConductorError::NotFound(m) => m.as_str(),
        }
    }

    /// The text carried by the error, at the specification level.
    pub open spec fn spec_message(&self) -> Seq<char> {
        match self {
            ConductorError::Validation(m) => m@,
            ConductorError::NotFound(m) => m@,
        }
    }
}

} // verus!
