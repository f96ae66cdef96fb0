//! The compiled lookup table: the transition and output functions derived
//! from the flattened, validated rules of a definition, total over all
//! (state, input) pairs with an explicit "no rule" result for absent keys.

use vstd::prelude::*;

use crate::ast::Transition;
use crate::machine::StateMachineImpl;

verus! {

/// Whether rule `r` covers the (state, input) key given by the two
/// character sequences.
pub open spec fn rule_covers(r: Transition, state: Seq<char>, input: Seq<char>) -> bool {
    r.initial_state@ == state && r.input_value@ == input
}

/// Whether two rules share the same (initial_state, input) key.
pub open spec fn same_key(a: Transition, b: Transition) -> bool {
    a.initial_state@ == b.initial_state@ && a.input_value@ == b.input_value@
}

/// Whether no two rules of the sequence share a (initial_state, input) key.
pub open spec fn unique_keys(rules: Seq<Transition>) -> bool {
    forall|j: int, k: int| 0 <= j < k < rules.len() ==> !same_key(rules[j], rules[k])
}

/// Whether some rule of the sequence covers the (state, input) key.
pub open spec fn covered(rules: Seq<Transition>, state: Seq<char>, input: Seq<char>) -> bool {
    exists|j: int| 0 <= j < rules.len() && rule_covers(rules[j], state, input)
}

/// The transition function over a sequence of rules: the final state of the
/// first rule covering the key, or `None` when no rule covers it.
pub open spec fn transition_of(rules: Seq<Transition>, state: Seq<char>, input: Seq<char>) -> Option<
    String,
>
    decreases rules.len(),
{
    if rules.len() == 0 {
        None
    } else if rule_covers(rules[0], state, input) {
        Some(rules[0].final_state)
    } else {
        transition_of(rules.drop_first(), state, input)
    }
}

/// The output function over a sequence of rules: the declared output of the
/// first rule covering the key, or `None` when no rule covers the key or
/// the covering rule declares no output.
pub open spec fn output_of(rules: Seq<Transition>, state: Seq<char>, input: Seq<char>) -> Option<
    String,
>
    decreases rules.len(),
{
    if rules.len() == 0 {
        None
    } else if rule_covers(rules[0], state, input) {
        rules[0].output
    } else {
        output_of(rules.drop_first(), state, input)
    }
}

/// For all (state, input) pairs not covered by any rule, the transition
/// function returns `None` and the output function returns `None`.
pub proof fn lemma_uncovered_pair(rules: Seq<Transition>, state: Seq<char>, input: Seq<char>)
    requires
        !covered(rules, state, input),
    ensures
        transition_of(rules, state, input) is None,
        output_of(rules, state, input) is None,
    decreases rules.len(),
{
    if rules.len() > 0 {
        assert(!rule_covers(rules[0], state, input));
        assert(!covered(rules.drop_first(), state, input)) by {
            assert forall|j: int|
                0 <= j < rules.drop_first().len() implies !rule_covers(
                rules.drop_first()[j],
                state,
                input,
            ) by {
                assert(rules.drop_first()[j] == rules[j + 1]);
            }
        }
        lemma_uncovered_pair(rules.drop_first(), state, input);
    }
}

/// The first covering rule decides the pair: when every rule before `j`
/// leaves the key uncovered and rule `j` covers it, the transition function
/// returns rule `j`'s final state and the output function its output.
pub proof fn lemma_first_match(rules: Seq<Transition>, state: Seq<char>, input: Seq<char>, j: int)
    requires
        0 <= j < rules.len(),
        rule_covers(rules[j], state, input),
        forall|k: int| 0 <= k < j ==> !rule_covers(rules[k], state, input),
    ensures
        transition_of(rules, state, input) == Some(rules[j].final_state),
        output_of(rules, state, input) == rules[j].output,
    decreases j,
{
    if j == 0 {
    } else {
        assert(!rule_covers(rules[0], state, input));
        assert(rules.drop_first()[j - 1] == rules[j]);
        assert forall|k: int| 0 <= k < j - 1 implies !rule_covers(
            rules.drop_first()[k],
            state,
            input,
        ) by {
            assert(rules.drop_first()[k] == rules[k + 1]);
        }
        lemma_first_match(rules.drop_first(), state, input, j - 1);
    }
}

/// Under key-uniqueness, any covering rule decides the pair: the results of
/// the transition and output functions do not depend on the order in which
/// the rules are examined.
pub proof fn lemma_covering_rule_decides(
    rules: Seq<Transition>,
    state: Seq<char>,
    input: Seq<char>,
    j: int,
)
    requires
        unique_keys(rules),
        0 <= j < rules.len(),
        rule_covers(rules[j], state, input),
    ensures
        transition_of(rules, state, input) == Some(rules[j].final_state),
        output_of(rules, state, input) == rules[j].output,
{
    assert forall|k: int| 0 <= k < j implies !rule_covers(rules[k], state, input) by {
        assert(!same_key(rules[k], rules[j]));
    }
    lemma_first_match(rules, state, input, j);
}

/// Applying the transition function along any sequence of rules taken
/// directly from the definition reproduces each rule's declared final
/// state after each step: whenever the rules at the indices of `path` chain
/// (each rule leaves from the state the previous one reached, and the first
/// leaves from `start`), every step of the walk is decided by its rule.
pub proof fn lemma_walk_follows_rules(
    rules: Seq<Transition>,
    path: Seq<int>,
    start: Seq<char>,
)
    requires
        unique_keys(rules),
        forall|k: int| 0 <= k < path.len() ==> 0 <= #[trigger] path[k] < rules.len(),
        path.len() > 0 ==> rules[path[0]].initial_state@ == start,
        forall|k: int|
            0 < k < path.len() ==> rules[#[trigger] path[k]].initial_state@ == rules[path[k
                - 1]].final_state@,
    ensures
        forall|k: int|
            0 <= k < path.len() ==> transition_of(
                rules,
                rules[#[trigger] path[k]].initial_state@,
                rules[path[k]].input_value@,
            ) == Some(rules[path[k]].final_state),
        forall|k: int|
            0 <= k < path.len() ==> output_of(
                rules,
                rules[#[trigger] path[k]].initial_state@,
                rules[path[k]].input_value@,
            ) == rules[path[k]].output,
{
    assert forall|k: int| 0 <= k < path.len() implies transition_of(
        rules,
        rules[#[trigger] path[k]].initial_state@,
        rules[path[k]].input_value@,
    ) == Some(rules[path[k]].final_state) && output_of(
        rules,
        rules[path[k]].initial_state@,
        rules[path[k]].input_value@,
    ) == rules[path[k]].output by {
        lemma_covering_rule_decides(
            rules,
            rules[path[k]].initial_state@,
            rules[path[k]].input_value@,
            path[k],
        );
    }
}

/// The compiled form of a state machine definition: its flattened rules in
/// declaration order, and its initial state. The transition and output
/// functions are derived from the rules; the semantic validator guarantees
/// key-uniqueness, so each (state, input) pair is decided by at most one
/// rule.
#[derive(Debug)]
pub struct CompiledTable {
    /// The flattened transition rules, in declaration order.
    pub rules: Vec<Transition>,
    /// The initial state of the machine.
    pub initial_state: String,
}

impl StateMachineImpl for CompiledTable {
    type Input = String;

    type State = String;

    type Output = String;

    open spec fn spec_initial_state(&self) -> String {
        self.initial_state
    }

    open spec fn spec_transition(&self, state: String, input: String) -> Option<String> {
        transition_of(self.rules@, state@, input@)
    }

    open spec fn spec_output(&self, state: String, input: String) -> Option<String> {
        output_of(self.rules@, state@, input@)
    }

    fn initial_state(&self) -> (s: String)
        ensures
            s == self.spec_initial_state(),
    {
        self.initial_state.clone()
    }

    fn transition(&self, state: &String, input: &String) -> (r: Option<String>)
        ensures
            r == self.spec_transition(*state, *input),
    {
        let mut j: usize = 0;
        while j < self.rules.len()
            invariant
                j <= self.rules.len(),
                forall|k: int| 0 <= k < j ==> !rule_covers(self.rules@[k], state@, input@),
            decreases self.rules.len() - j,
        {
            if self.rules[j].initial_state == *state && self.rules[j].input_value == *input {
                proof {
                    lemma_first_match(self.rules@, state@, input@, j as int);
                }
                return Some(self.rules[j].final_state.clone());
            }
            j += 1;
        }
        proof {
            lemma_uncovered_pair(self.rules@, state@, input@);
        }
        None
    }

    fn output(&self, state: &String, input: &String) -> (r: Option<String>)
        ensures
            r == self.spec_output(*state, *input),
    {
        let mut j: usize = 0;
        while j < self.rules.len()
            invariant
                j <= self.rules.len(),
                forall|k: int| 0 <= k < j ==> !rule_covers(self.rules@[k], state@, input@),
            decreases self.rules.len() - j,
        {
            if self.rules[j].initial_state == *state && self.rules[j].input_value == *input {
                proof {
                    lemma_first_match(self.rules@, state@, input@, j as int);
                }
                return match &self.rules[j].output {
                    Some(o) => Some(o.clone()),
                    None => None,
                };
            }
            j += 1;
        }
        proof {
            lemma_uncovered_pair(self.rules@, state@, input@);
        }
        None
    }
}

} // verus!
