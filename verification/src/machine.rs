//! The runtime side of the library: a trait describing any deterministic
//! finite-state machine/transducer, and a holder that keeps the current
//! state and dispatches to the machine's transition and output functions.

use vstd::prelude::*;

verus! {

/// The error returned by [`StateMachine::consume`] when no transition is
/// defined for the current combination of state and input. The state is
/// guaranteed unchanged when this error is returned.
#[derive(Clone, Copy, Debug, PartialEq, Eq, Structural)]
pub struct TransitionImpossibleError;

impl TransitionImpossibleError {
    /// A human-readable description of the error.
    pub fn message(&self) -> (r: String)
        ensures
            r@ == "cannot perform a state transition from the current state with the provided input"@,
    {
        String::from_str(
            "cannot perform a state transition from the current state with the provided input",
        )
    }
}

/// Describes a deterministic finite state machine/transducer: an input
/// alphabet, a state set, an output alphabet, an initial state, and the
/// transition and output functions, both partial over (state, input) pairs.
///
/// The `spec_` functions give the mathematical meaning of the machine; the
/// executable methods are required to agree with them, so everything proved
/// about a holder over this trait holds for every implementation.
pub trait StateMachineImpl: Sized {
    /// The input alphabet.
    type Input;

    /// The set of possible states.
    type State;

    /// The output alphabet.
    type Output;

    /// The initial state, as a mathematical value.
    spec fn spec_initial_state(&self) -> Self::State;

    /// The transition function, as a mathematical partial map: `None` means
    /// no transition is defined for this (state, input) pair.
    spec fn spec_transition(&self, state: Self::State, input: Self::Input) -> Option<Self::State>;

    /// The output function, as a mathematical partial map: `None` means no
    /// output is defined for this (state, input) pair.
    spec fn spec_output(&self, state: Self::State, input: Self::Input) -> Option<Self::Output>;

    /// The initial state of the machine.
    fn initial_state(&self) -> (s: Self::State)
        ensures
            s == self.spec_initial_state(),
    ;

    /// The transition function: the next state for the given state and
    /// input, or `None` when no transition is defined for this pair.
    fn transition(&self, state: &Self::State, input: &Self::Input) -> (r: Option<Self::State>)
        ensures
            r == self.spec_transition(*state, *input),
    ;

    /// The output function: the output for the given state and input, or
    /// `None` when no output is defined for this pair.
    fn output(&self, state: &Self::State, input: &Self::Input) -> (r: Option<Self::Output>)
        ensures
            r == self.spec_output(*state, *input),
    ;
}

/// A holder that wraps a machine implementation together with its current
/// state and encapsulates the transition and output function calls.
pub struct StateMachine<T: StateMachineImpl> {
    machine: T,
    state: T::State,
}

impl<T: StateMachineImpl> StateMachine<T> {
    /// The machine implementation held by this wrapper.
    pub closed spec fn spec_machine(&self) -> T {
        self.machine
    }

    /// The current state of this wrapper.
    pub closed spec fn spec_state(&self) -> T::State {
        self.state
    }

    /// Creates a new holder for the given machine, starting in the
    /// machine's initial state.
    pub fn new(machine: T) -> (r: Self)
        ensures
            r.spec_machine() == machine,
            r.spec_state() == machine.spec_initial_state(),
    {
        let state = machine.initial_state();
        StateMachine { machine, state }
    }

    /// Creates a new holder for the given machine, starting in the given
    /// state.
    pub fn from_state(machine: T, state: T::State) -> (r: Self)
        ensures
            r.spec_machine() == machine,
            r.spec_state() == state,
    {
        StateMachine { machine, state }
    }

    /// Consumes the provided input: if a transition is defined for the
    /// current state and the input, returns the output computed against the
    /// pre-transition state and then advances the state; otherwise returns
    /// an error and leaves the state unchanged.
    pub fn consume(&mut self, input: &T::Input) -> (r: Result<
        Option<T::Output>,
        TransitionImpossibleError,
    >)
        ensures
            final(self).spec_machine() == old(self).spec_machine(),
            (match old(self).spec_machine().spec_transition(old(self).spec_state(), *input) {
                Some(next) => final(self).spec_state() == next && r == Ok::<
                    Option<T::Output>,
                    TransitionImpossibleError,
                >(old(self).spec_machine().spec_output(old(self).spec_state(), *input)),
                None => final(self).spec_state() == old(self).spec_state() && r == Err::<
                    Option<T::Output>,
                    TransitionImpossibleError,
                >(TransitionImpossibleError),
            }),
    {
        match self.machine.transition(&self.state, input) {
            Some(next) => {
                let output = self.machine.output(&self.state, input);
                self.state = next;
                Ok(output)
            },
            None => Err(TransitionImpossibleError),
        }
    }

    /// Consumes the provided input: returns the output computed against the
    /// pre-transition state, and advances the state if and only if a
    /// transition is defined for the current state and the input; an absent
    /// transition is a silent no-op rather than an error.
    pub fn consume_anyway(&mut self, input: &T::Input) -> (r: Option<T::Output>)
        ensures
            final(self).spec_machine() == old(self).spec_machine(),
            r == old(self).spec_machine().spec_output(old(self).spec_state(), *input),
            (match old(self).spec_machine().spec_transition(old(self).spec_state(), *input) {
                Some(next) => final(self).spec_state() == next,
                None => final(self).spec_state() == old(self).spec_state(),
            }),
    {
        let output = self.machine.output(&self.state, input);
        match self.machine.transition(&self.state, input) {
            Some(next) => {
                self.state = next;
            },
            None => {},
        }
        output
    }

    /// Returns the current state.
    pub fn state(&self) -> (r: &T::State)
        ensures
            *r == self.spec_state(),
    {
        &self.state
    }
}

} // verus!
