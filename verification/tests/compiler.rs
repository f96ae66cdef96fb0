//! Tests of the compiler: parsing, alphabet collection, validation and
//! emission.

use rust_fsm::alphabet::collect_alphabets;
use rust_fsm::compile;
use rust_fsm::error::CompileError;

fn s(text: &str) -> String {
    text.to_string()
}

const CIRCUIT_BREAKER: &str = "circuit_breaker(Closed)

    Closed(Unsuccessful) => Open [SetupTimer],
    Open(TimerTriggered) => HalfOpen,
    HalfOpen => {
        Successful => Closed,
        Unsuccessful => Open [SetupTimer]
    }";

#[test]
fn alphabets_are_deduplicated_in_first_appearance_order() {
    let artifact = compile(CIRCUIT_BREAKER, false).unwrap();
    let alphabets = collect_alphabets(&s("Closed"), &artifact.table.rules);
    assert_eq!(alphabets.states, vec![s("Closed"), s("Open"), s("HalfOpen")]);
    assert_eq!(
        alphabets.inputs,
        vec![s("Unsuccessful"), s("TimerTriggered"), s("Successful")]
    );
    assert_eq!(alphabets.outputs, vec![s("SetupTimer")]);
}

#[test]
fn state_alphabet_seeded_with_initial_state() {
    // The initial state appears in no rule as an initial state, and a
    // terminal state is reachable only as a final state: both are in the
    // alphabet exactly once.
    let artifact = compile("m(Start) Start(Go) => Done,", false).unwrap();
    let alphabets = collect_alphabets(&s("Start"), &artifact.table.rules);
    assert_eq!(alphabets.states, vec![s("Start"), s("Done")]);
}

#[test]
fn flattened_rules_keep_declaration_order() {
    let artifact = compile(CIRCUIT_BREAKER, false).unwrap();
    let rules = &artifact.table.rules;
    assert_eq!(rules.len(), 4);
    assert_eq!(rules[0].initial_state, s("Closed"));
    assert_eq!(rules[0].input_value, s("Unsuccessful"));
    assert_eq!(rules[0].final_state, s("Open"));
    assert_eq!(rules[0].output, Some(s("SetupTimer")));
    assert_eq!(rules[1].initial_state, s("Open"));
    assert_eq!(rules[1].output, None);
    // The compact block expands to one rule per entry, each carrying the
    // group's initial state.
    assert_eq!(rules[2].initial_state, s("HalfOpen"));
    assert_eq!(rules[2].input_value, s("Successful"));
    assert_eq!(rules[3].initial_state, s("HalfOpen"));
    assert_eq!(rules[3].input_value, s("Unsuccessful"));
}

#[test]
fn empty_spec_is_rejected() {
    let res = compile("machine(Start)", false);
    assert!(matches!(res, Err(CompileError::EmptySpecError)));
}

#[test]
fn empty_compact_block_is_rejected_with_its_state() {
    let res = compile("machine(Start) Start => { }", false);
    match res {
        Err(CompileError::EmptyCompactBlockError { initial_state }) => {
            assert_eq!(initial_state, s("Start"));
        }
        _ => panic!("expected an empty compact block error"),
    }
}

#[test]
fn conflicting_rules_are_rejected_with_both_rules() {
    let res = compile("m(A) A(X) => B, A(X) => C,", false);
    match res {
        Err(CompileError::ConflictingTransitionError { first, second }) => {
            assert_eq!(first.initial_state, s("A"));
            assert_eq!(first.input_value, s("X"));
            assert_eq!(first.final_state, s("B"));
            assert_eq!(second.final_state, s("C"));
        }
        _ => panic!("expected a conflicting transition error"),
    }
}

#[test]
fn repeated_key_is_rejected_even_with_equal_results() {
    let res = compile("m(A) A(X) => B, A(X) => B,", false);
    assert!(matches!(
        res,
        Err(CompileError::ConflictingTransitionError { .. })
    ));
}

#[test]
fn conflict_across_compact_and_simple_forms() {
    let res = compile("m(A) A => { X => B }, A(X) => C,", false);
    assert!(matches!(
        res,
        Err(CompileError::ConflictingTransitionError { .. })
    ));
}

#[test]
fn grammar_error_carries_the_offending_offset() {
    // The lone '=' starts at character offset 10.
    let res = compile("m(A) A(X) = B,", false);
    match res {
        Err(CompileError::GrammarError { position }) => assert_eq!(position, 10),
        _ => panic!("expected a grammar error"),
    }
    // A character that fits no token.
    let res = compile("m(A); A(X) => B,", false);
    match res {
        Err(CompileError::GrammarError { position }) => assert_eq!(position, 4),
        _ => panic!("expected a grammar error"),
    }
    // Input that ends too early points at the text length.
    let res = compile("m(A) A(X) =>", false);
    match res {
        Err(CompileError::GrammarError { position }) => assert_eq!(position, 12),
        _ => panic!("expected a grammar error"),
    }
}

#[test]
fn duplicate_directives_are_rejected() {
    assert!(matches!(
        compile("pub pub m(A) A(X) => B,", false),
        Err(CompileError::GrammarError { .. })
    ));
    assert!(matches!(
        compile("derive(Debug) derive(Clone) m(A) A(X) => B,", false),
        Err(CompileError::GrammarError { .. })
    ));
    assert!(matches!(
        compile("repr_c(yes) m(A) A(X) => B,", false),
        Err(CompileError::GrammarError { .. })
    ));
}

#[test]
fn emitted_artifact_text_is_exact() {
    let artifact = compile("door(Open) Open(Key) => Closed,", false).unwrap();
    let expected = "mod door {\n\
        \x20   pub enum State {\n\
        \x20       Open,\n\
        \x20       Closed,\n\
        \x20   }\n\
        \x20   pub enum Input {\n\
        \x20       Key,\n\
        \x20   }\n\
        \x20   pub type Output = ();\n\
        \x20   pub const INITIAL_STATE: State = State::Open;\n\
        \x20   pub fn transition(state: &State, input: &Input) -> Option<State> {\n\
        \x20       match (state, input) {\n\
        \x20           (State::Open, Input::Key) => Some(State::Closed),\n\
        \x20           _ => None,\n\
        \x20       }\n\
        \x20   }\n\
        \x20   pub fn output(state: &State, input: &Input) -> Option<Output> {\n\
        \x20       match (state, input) {\n\
        \x20           _ => None,\n\
        \x20       }\n\
        \x20   }\n\
        }\n";
    assert_eq!(artifact.source, expected);
    assert_eq!(artifact.diagram, None);
}

#[test]
fn emitted_artifact_with_outputs_and_directives() {
    let artifact = compile(
        "derive(Debug, PartialEq) repr_c(true) pub m(A) A(X) => B [Y],",
        false,
    )
    .unwrap();
    let expected = "pub mod m {\n\
        \x20   #[derive(Debug, PartialEq)]\n\
        \x20   #[repr(C)]\n\
        \x20   pub enum State {\n\
        \x20       A,\n\
        \x20       B,\n\
        \x20   }\n\
        \x20   #[derive(Debug, PartialEq)]\n\
        \x20   #[repr(C)]\n\
        \x20   pub enum Input {\n\
        \x20       X,\n\
        \x20   }\n\
        \x20   #[derive(Debug, PartialEq)]\n\
        \x20   #[repr(C)]\n\
        \x20   pub enum Output {\n\
        \x20       Y,\n\
        \x20   }\n\
        \x20   pub const INITIAL_STATE: State = State::A;\n\
        \x20   pub fn transition(state: &State, input: &Input) -> Option<State> {\n\
        \x20       match (state, input) {\n\
        \x20           (State::A, Input::X) => Some(State::B),\n\
        \x20           _ => None,\n\
        \x20       }\n\
        \x20   }\n\
        \x20   pub fn output(state: &State, input: &Input) -> Option<Output> {\n\
        \x20       match (state, input) {\n\
        \x20           (State::A, Input::X) => Some(Output::Y),\n\
        \x20           _ => None,\n\
        \x20       }\n\
        \x20   }\n\
        }\n";
    assert_eq!(artifact.source, expected);
}

#[test]
fn bound_types_replace_emitted_enumerations() {
    let artifact = compile(
        "input(crate::In) state(crate::St) output(crate::Out) m(A) A(X) => B [Y],",
        false,
    )
    .unwrap();
    let expected = "mod m {\n\
        \x20   pub const INITIAL_STATE: crate::St = crate::St::A;\n\
        \x20   pub fn transition(state: &crate::St, input: &crate::In) -> Option<crate::St> {\n\
        \x20       match (state, input) {\n\
        \x20           (crate::St::A, crate::In::X) => Some(crate::St::B),\n\
        \x20           _ => None,\n\
        \x20       }\n\
        \x20   }\n\
        \x20   pub fn output(state: &crate::St, input: &crate::In) -> Option<crate::Out> {\n\
        \x20       match (state, input) {\n\
        \x20           (crate::St::A, crate::In::X) => Some(crate::Out::Y),\n\
        \x20           _ => None,\n\
        \x20       }\n\
        \x20   }\n\
        }\n";
    assert_eq!(artifact.source, expected);
}

#[test]
fn diagram_walks_rules_in_declaration_order() {
    let artifact = compile(CIRCUIT_BREAKER, true).unwrap();
    let expected = "```mermaid\n\
        stateDiagram-v2\n\
        \x20   [*] --> Closed\n\
        \x20   Closed --> Open: Unsuccessful [SetupTimer]\n\
        \x20   Open --> HalfOpen: TimerTriggered\n\
        \x20   HalfOpen --> Closed: Successful\n\
        \x20   HalfOpen --> Open: Unsuccessful [SetupTimer]\n\
        ```\n";
    assert_eq!(artifact.diagram, Some(expected.to_string()));
}

#[test]
fn compile_error_messages() {
    let empty = compile("m(A)", false).unwrap_err();
    assert_eq!(empty.message(), "at least one state transition must be provided");
    let block = compile("m(A) A => {}", false).unwrap_err();
    assert_eq!(
        block.message(),
        "no transitions provided for a compact representation: A"
    );
}

#[test]
fn lone_colon_is_a_grammar_error() {
    let res = compile("m(A) A(X) => B, state(a:b) m2(A)", false);
    assert!(matches!(res, Err(CompileError::GrammarError { .. })));
}

#[test]
fn identifiers_may_hold_digits_and_underscores() {
    let artifact = compile("m_1(State_2) State_2(In_3) => Done4,", false).unwrap();
    assert_eq!(artifact.table.initial_state, "State_2".to_string());
    assert_eq!(artifact.table.rules[0].final_state, "Done4".to_string());
}

#[test]
fn a_character_outside_the_language_is_rejected() {
    let res = compile("m(A) A(X) => B; C(Y) => D,", false);
    match res {
        Err(CompileError::GrammarError { position }) => assert_eq!(position, 14),
        _ => panic!("expected a grammar error"),
    }
}

#[test]
fn parse_error_points_at_the_offending_token() {
    // The comma where an identifier is expected starts at offset 13.
    let res = compile("m(A) A(X) => ,", false);
    match res {
        Err(CompileError::GrammarError { position }) => assert_eq!(position, 13),
        _ => panic!("expected a grammar error"),
    }
}
