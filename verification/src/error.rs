//! The compile-time error taxonomy. Every error is fatal to producing an
//! artifact: compilation either yields a whole artifact or exactly one of
//! these errors, never a partial artifact.

use vstd::prelude::*;

use crate::ast::Transition;

verus! {

/// An error raised while compiling a state machine definition.
#[derive(Debug)]
pub enum CompileError {
    /// A malformed token sequence; carries the character offset of the
    /// offending token (or the text length, when input ended too early).
    GrammarError { position: usize },
    /// The definition contains zero transition rules.
    EmptySpecError,
    /// A compact block with zero entries; carries the offending initial
    /// state name.
    EmptyCompactBlockError { initial_state: String },
    /// Two rules share the same (initial_state, input) key; carries both
    /// conflicting rules, in declaration order.
    ConflictingTransitionError { first: Transition, second: Transition },
}

impl CompileError {
    /// A human-readable description of the error.
    pub fn message(&self) -> (r: String)
        ensures
            (match self {
                CompileError::GrammarError { .. } => r@ == "malformed state machine definition"@,
                CompileError::EmptySpecError => r@
                    == "at least one state transition must be provided"@,
                CompileError::EmptyCompactBlockError { initial_state } => r@
                    == "no transitions provided for a compact representation: "@
                    + initial_state@,
                CompileError::ConflictingTransitionError { .. } => r@
                    == "conflicting rules for one state and input pair"@,
            }),
    {
        match self {
            CompileError::GrammarError { .. } => String::from_str(
                "malformed state machine definition",
            ),
            CompileError::EmptySpecError => String::from_str(
                "at least one state transition must be provided",
            ),
            CompileError::EmptyCompactBlockError { initial_state } => {
                let mut r = String::from_str(
                    "no transitions provided for a compact representation: ",
                );
                r.append(initial_state.as_str());
                r
            },
            CompileError::ConflictingTransitionError { .. } => String::from_str(
                "conflicting rules for one state and input pair",
            ),
        }
    }
}

} // verus!
