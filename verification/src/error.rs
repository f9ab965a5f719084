//! Error taxonomy of the proof engine.
//!
//! Construction-time problems (a malformed formula) are model errors;
//! per-operation problems (bad indices, a failed match, an exhausted search
//! budget, an unsafe rule) are reasoning errors and are always recoverable;
//! a proof step that would reference itself or a later step is a proof
//! verification error.

use vstd::prelude::*;

verus! {

/// The errors that the engine's operations can return.
///
/// Each failure kind is a distinct variant, so that callers can tell a
/// genuine "no match" apart from an exhausted search budget or a bad index.
#[derive(Debug, Clone, Copy, PartialEq, Eq, Structural)]
pub enum Error {
    /// A concrete-syntax input (such as a base IRI) was rejected.
    ParseError,
    /// A term or formula violates the model invariants, e.g. a variable
    /// occurs in a statement without being quantified.
    ModelError,
    /// A rule's conclusion uses a universal variable that no premise binds.
    UnsafeRule,
    /// The number of supplied formulas differs from the rule's premise count.
    ArityMismatch,
    /// No substitution makes the rule's premises match the supplied formulas.
    NoMatchFound,
    /// The backtracking search used up its budget before finishing.
    BudgetExceeded,
    /// A rule index does not name a registered rule.
    InvalidRuleIndex,
    /// A premise index does not name a knowledge-base entry.
    InvalidPremiseIndex,
    /// A proof step would reference itself or a later step.
    ProofVerificationError,
}

impl Error {
    /// A short diagnostic name for the error.
    pub fn describe(&self) -> (r: &'static str)
        ensures
            r@.len() > 0,
    {
        let s: &'static str = match self {
            Error::ParseError => "parse error",
            Error::ModelError => "model error",
            Error::UnsafeRule => "unsafe rule",
            Error::ArityMismatch => "arity mismatch",
            Error::NoMatchFound => "no match found",
            Error::BudgetExceeded => "search budget exceeded",
            Error::InvalidRuleIndex => "invalid rule index",
            Error::InvalidPremiseIndex => "invalid premise index",
            Error::ProofVerificationError => "proof verification error",
        };
        proof {
            reveal_strlit("parse error");
            reveal_strlit("model error");
            reveal_strlit("unsafe rule");
            reveal_strlit("arity mismatch");
            reveal_strlit("no match found");
            reveal_strlit("search budget exceeded");
            reveal_strlit("invalid rule index");
            reveal_strlit("invalid premise index");
            reveal_strlit("proof verification error");
        }
        s
    }
}

} // verus!
