//! Tests of the runtime holder driving compiled machines.

use rust_fsm::compile;
use rust_fsm::machine::{StateMachine, StateMachineImpl, TransitionImpossibleError};
use rust_fsm::table::CompiledTable;

fn s(text: &str) -> String {
    text.to_string()
}

const CIRCUIT_BREAKER: &str = "circuit_breaker(Closed)

    Closed(Unsuccessful) => Open [SetupTimer],
    Open(TimerTriggered) => HalfOpen,
    HalfOpen => {
        Successful => Closed,
        Unsuccessful => Open [SetupTimer]
    }";

fn circuit_breaker_table() -> CompiledTable {
    compile(CIRCUIT_BREAKER, false).unwrap().table
}

#[test]
fn circit_breaker_dsl() {
    let mut machine = StateMachine::new(circuit_breaker_table());

    // Unsuccessful request
    let res = machine.consume(&s("Unsuccessful")).unwrap();
    assert!(matches!(res, Some(o) if o == "SetupTimer"));
    assert!(matches!(machine.state(), o if o == "Open"));

    // Try to pass a request when the circuit breaker is still open
    let res = machine.consume(&s("Successful"));
    assert!(matches!(res, Err(TransitionImpossibleError)));
    assert!(matches!(machine.state(), o if o == "Open"));

    // The timer triggers
    let res = machine.consume(&s("TimerTriggered")).unwrap();
    assert!(matches!(res, None));
    assert!(matches!(machine.state(), o if o == "HalfOpen"));

    // Test if the circuit breaker was actually closed
    let res = machine.consume(&s("Successful")).unwrap();
    assert!(matches!(res, None));
    assert!(matches!(machine.state(), o if o == "Closed"));
}

#[test]
fn circuit_breaker_dsl_custom_types_circit_breaker_dsl() {
    let text = "input(crate::Input) state(crate::State) output(crate::Output)
        circuit_breaker(Closed)

        Closed(Unsuccessful) => Open [SetupTimer],
        Open(TimerTriggered) => HalfOpen,
        HalfOpen => {
            Successful => Closed,
            Unsuccessful => Open [SetupTimer]
        }";
    let mut machine = StateMachine::new(compile(text, false).unwrap().table);

    let res = machine.consume(&s("Unsuccessful")).unwrap();
    assert!(matches!(res, Some(o) if o == "SetupTimer"));
    assert!(matches!(machine.state(), o if o == "Open"));

    let res = machine.consume(&s("Successful"));
    assert!(matches!(res, Err(TransitionImpossibleError)));
    assert!(matches!(machine.state(), o if o == "Open"));

    let res = machine.consume(&s("TimerTriggered")).unwrap();
    assert!(matches!(res, None));
    assert!(matches!(machine.state(), o if o == "HalfOpen"));

    let res = machine.consume(&s("Successful")).unwrap();
    assert!(matches!(res, None));
    assert!(matches!(machine.state(), o if o == "Closed"));
}

#[test]
fn simple() {
    let text = "derive(Debug) repr_c(true)
        door(Open)

        Open(Key) => Closed,
        Closed(Key) => Open,
        Open(Break) => Broken,
        Closed(Break) => Broken,";
    let mut machine = StateMachine::new(compile(text, false).unwrap().table);
    machine.consume(&s("Key")).unwrap();
    println!("{:?}", machine.state());
    machine.consume(&s("Key")).unwrap();
    println!("{:?}", machine.state());
    machine.consume(&s("Break")).unwrap();
    println!("{:?}", machine.state());
}

#[test]
fn consume_error_leaves_state_unchanged() {
    let mut machine = StateMachine::new(circuit_breaker_table());
    assert_eq!(machine.state(), &s("Closed"));
    let res = machine.consume(&s("TimerTriggered"));
    assert!(matches!(res, Err(TransitionImpossibleError)));
    assert_eq!(machine.state(), &s("Closed"));
}

#[test]
fn consume_anyway_is_silent_on_uncovered_pairs() {
    let mut machine = StateMachine::new(circuit_breaker_table());
    // Uncovered: output is None and the state does not move.
    let res = machine.consume_anyway(&s("Successful"));
    assert_eq!(res, None);
    assert_eq!(machine.state(), &s("Closed"));
    // Covered: the output comes against the pre-transition state, then the
    // state advances.
    let res = machine.consume_anyway(&s("Unsuccessful"));
    assert_eq!(res, Some(s("SetupTimer")));
    assert_eq!(machine.state(), &s("Open"));
}

#[test]
fn consume_anyway_matches_output_function() {
    let table = circuit_breaker_table();
    let expected = table.output(&s("Closed"), &s("Unsuccessful"));
    let mut machine = StateMachine::new(circuit_breaker_table());
    let res = machine.consume_anyway(&s("Unsuccessful"));
    assert_eq!(res, expected);
}

#[test]
fn from_state_starts_where_told() {
    let machine = StateMachine::from_state(circuit_breaker_table(), s("HalfOpen"));
    assert_eq!(machine.state(), &s("HalfOpen"));
}

#[test]
fn transition_none_on_uncovered_pairs() {
    let table = circuit_breaker_table();
    assert_eq!(table.transition(&s("Closed"), &s("TimerTriggered")), None);
    assert_eq!(table.output(&s("Closed"), &s("TimerTriggered")), None);
    assert_eq!(table.transition(&s("Missing"), &s("Unsuccessful")), None);
    assert_eq!(table.output(&s("Missing"), &s("Unsuccessful")), None);
}

#[test]
fn transition_follows_each_rule() {
    let table = circuit_breaker_table();
    // Every rule of the definition is reproduced by the compiled functions.
    assert_eq!(table.transition(&s("Closed"), &s("Unsuccessful")), Some(s("Open")));
    assert_eq!(table.output(&s("Closed"), &s("Unsuccessful")), Some(s("SetupTimer")));
    assert_eq!(table.transition(&s("Open"), &s("TimerTriggered")), Some(s("HalfOpen")));
    assert_eq!(table.output(&s("Open"), &s("TimerTriggered")), None);
    assert_eq!(table.transition(&s("HalfOpen"), &s("Successful")), Some(s("Closed")));
    assert_eq!(table.output(&s("HalfOpen"), &s("Successful")), None);
    assert_eq!(table.transition(&s("HalfOpen"), &s("Unsuccessful")), Some(s("Open")));
    assert_eq!(table.output(&s("HalfOpen"), &s("Unsuccessful")), Some(s("SetupTimer")));
}

#[test]
fn initial_state_comes_from_the_header() {
    let table = circuit_breaker_table();
    assert_eq!(table.initial_state(), s("Closed"));
    let machine = StateMachine::new(table);
    assert_eq!(machine.state(), &s("Closed"));
}

#[test]
fn transition_impossible_message() {
    let err = TransitionImpossibleError;
    assert_eq!(
        err.message(),
        "cannot perform a state transition from the current state with the provided input"
    );
}
