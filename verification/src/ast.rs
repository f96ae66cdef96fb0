//! The abstract syntax tree of the state machine description language, and
//! the fully flattened transition rule derived from it.
//!
//! Identifiers are held as plain [`String`]s; two identifiers are the same
//! name exactly when their character sequences (their views) are equal.

use vstd::prelude::*;

verus! {

/// The visibility modifier of a state machine definition; it applies to all
/// items of the emitted artifact.
#[derive(Clone, Copy, Debug, PartialEq, Eq, Structural)]
pub enum Visibility {
    /// No modifier: the artifact items are private to their namespace.
    Private,
    /// The `pub` modifier was given.
    Public,
}

/// The optional output of a single state transition, as parsed: either
/// `[Name]` after the final state, or nothing.
#[derive(Debug)]
pub struct Output(pub Option<String>);

impl Output {
    /// The parsed output name, if one was given.
    pub fn into_option(self) -> (r: Option<String>)
        ensures
            r == self.0,
    {
        self.0
    }
}

/// A part of a state transition without the initial state: written
/// `Input => FinalState [Output]?` inside a compact block, or derived from
/// the simple form.
#[derive(Debug)]
pub struct TransitionEntry {
    /// The input that triggers this transition.
    pub input_value: String,
    /// The state the machine moves to.
    pub final_state: String,
    /// The output produced by this transition, if any.
    pub output: Option<String>,
}

/// One transition group of the definition: an initial state together with
/// the entries that leave it. The simple form
/// `InitialState(Input) => FinalState [Output]?` yields a group of one
/// entry; the compact form `InitialState => { ... }` yields one group per
/// block.
#[derive(Debug)]
pub struct TransitionDef {
    /// The state all entries of this group leave from.
    pub initial_state: String,
    /// The entries of the group; a valid definition has at least one.
    pub transitions: Vec<TransitionEntry>,
}

/// The whole parsed state machine definition. Immutable once parsed.
#[derive(Debug)]
pub struct StateMachineDef {
    /// The visibility modifier, applied to all generated items.
    pub visibility: Visibility,
    /// The name of the machine; the artifact namespace is named after it.
    pub name: String,
    /// The initial state of the machine.
    pub initial_state: String,
    /// The transition groups, in declaration order.
    pub transitions: Vec<TransitionDef>,
    /// The names listed in the `derive(...)` directive, in order.
    pub derives: Vec<String>,
    /// Whether the `repr_c(true)` representation directive was given.
    pub repr_c: bool,
    /// A custom type bound to the input alphabet, if the `input(Path)`
    /// directive was given; the artifact then references this type instead
    /// of emitting an Input enumeration.
    pub input_type: Option<String>,
    /// A custom type bound to the state set, by the `state(Path)` directive.
    pub state_type: Option<String>,
    /// A custom type bound to the output alphabet, by the `output(Path)`
    /// directive.
    pub output_type: Option<String>,
}

/// The full information about a single state transition: one flattened rule
/// of the machine, with the initial state of its group attached.
#[derive(Debug)]
pub struct Transition {
    /// The state this rule leaves from.
    pub initial_state: String,
    /// The input that triggers this rule.
    pub input_value: String,
    /// The state this rule moves to.
    pub final_state: String,
    /// The output of this rule, if any.
    pub output: Option<String>,
}

impl Transition {
    /// An exact copy of this rule.
    pub fn duplicate(&self) -> (r: Transition)
        ensures
            r == *self,
    {
        Transition {
            initial_state: self.initial_state.clone(),
            input_value: self.input_value.clone(),
            final_state: self.final_state.clone(),
            output: match &self.output {
                Some(o) => Some(o.clone()),
                None => None,
            },
        }
    }
}

} // verus!
