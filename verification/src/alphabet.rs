//! The alphabet collector: flattens the transition groups of a definition
//! into individual rules, and derives the deduplicated, insertion-ordered
//! alphabets of state, input and output names. The order is determined by
//! first appearance, so it is stable across compilations of the same
//! definition and fixes the member order of the emitted enumerations.

use vstd::prelude::*;

use crate::ast::{StateMachineDef, Transition, TransitionDef};

verus! {

/// The rules of one transition group, each carrying the group's initial
/// state.
pub open spec fn group_rules(g: TransitionDef) -> Seq<Transition> {
    Seq::new(
        g.transitions@.len(),
        |i: int|
            Transition {
                initial_state: g.initial_state,
                input_value: g.transitions@[i].input_value,
                final_state: g.transitions@[i].final_state,
                output: g.transitions@[i].output,
            },
    )
}

/// All rules of the given groups, flattened in declaration order.
pub open spec fn flatten_of(groups: Seq<TransitionDef>) -> Seq<Transition>
    decreases groups.len(),
{
    if groups.len() == 0 {
        Seq::empty()
    } else {
        flatten_of(groups.drop_last()) + group_rules(groups.last())
    }
}

/// Whether some string of the sequence spells the given name.
pub open spec fn contains_name(s: Seq<String>, name: Seq<char>) -> bool {
    exists|j: int| 0 <= j < s.len() && s[j]@ == name
}

/// How many strings of the sequence spell the given name.
pub open spec fn count_name(s: Seq<String>, name: Seq<char>) -> nat
    decreases s.len(),
{
    if s.len() == 0 {
        0
    } else {
        count_name(s.drop_last(), name) + (if s.last()@ == name {
            1nat
        } else {
            0nat
        })
    }
}

/// The sequence with every name kept exactly once, at its first
/// appearance.
pub open spec fn dedup_names(s: Seq<String>) -> Seq<String>
    decreases s.len(),
{
    if s.len() == 0 {
        Seq::empty()
    } else {
        let rest = dedup_names(s.drop_last());
        if contains_name(s.drop_last(), s.last()@) {
            rest
        } else {
            rest + seq![s.last()]
        }
    }
}

/// Every appearance of a state name in the definition, in order: the
/// machine's initial state first, then each rule's initial and final
/// state.
pub open spec fn state_appearances(initial: String, rules: Seq<Transition>) -> Seq<String>
    decreases rules.len(),
{
    if rules.len() == 0 {
        seq![initial]
    } else {
        state_appearances(initial, rules.drop_last())
            + seq![rules.last().initial_state, rules.last().final_state]
    }
}

/// Every appearance of an input name, in rule order.
pub open spec fn input_appearances(rules: Seq<Transition>) -> Seq<String>
    decreases rules.len(),
{
    if rules.len() == 0 {
        Seq::empty()
    } else {
        input_appearances(rules.drop_last()) + seq![rules.last().input_value]
    }
}

/// Every appearance of an output name, in rule order; rules without an
/// output contribute nothing.
pub open spec fn output_appearances(rules: Seq<Transition>) -> Seq<String>
    decreases rules.len(),
{
    if rules.len() == 0 {
        Seq::empty()
    } else {
        output_appearances(rules.drop_last()) + (match rules.last().output {
            Some(o) => seq![o],
            None => Seq::empty(),
        })
    }
}

/// The state alphabet of a definition: state appearances deduplicated,
/// first appearance first.
pub open spec fn state_alphabet(initial: String, rules: Seq<Transition>) -> Seq<String> {
    dedup_names(state_appearances(initial, rules))
}

/// The input alphabet of a definition.
pub open spec fn input_alphabet(rules: Seq<Transition>) -> Seq<String> {
    dedup_names(input_appearances(rules))
}

/// The output alphabet of a definition.
pub open spec fn output_alphabet(rules: Seq<Transition>) -> Seq<String> {
    dedup_names(output_appearances(rules))
}

/// The three alphabets derived from a definition: the deduplicated state,
/// input and output names, in order of first appearance.
pub struct Alphabets {
    /// The state names: the initial state, then every state a rule leaves
    /// from or moves to, each exactly once.
    pub states: Vec<String>,
    /// The input names, each exactly once.
    pub inputs: Vec<String>,
    /// The output names, each exactly once; empty when no rule declares an
    /// output.
    pub outputs: Vec<String>,
}

/// Flattens the transition groups of a definition into individual rules,
/// compact groups expanded to one rule per entry, each carrying its
/// group's initial state.
pub fn flatten(def: &StateMachineDef) -> (r: Vec<Transition>)
    ensures
        r@ == flatten_of(def.transitions@),
{
    let mut out: Vec<Transition> = Vec::new();
    let mut g: usize = 0;
    while g < def.transitions.len()
        invariant
            g <= def.transitions@.len(),
            out@ == flatten_of(def.transitions@.take(g as int)),
        decreases def.transitions@.len() - g,
    {
        let group = &def.transitions[g];
        let mut e: usize = 0;
        while e < group.transitions.len()
            invariant
                e <= group.transitions@.len(),
                group == def.transitions@[g as int],
                g < def.transitions@.len(),
                out@ == flatten_of(def.transitions@.take(g as int)) + group_rules(*group).take(
                    e as int,
                ),
            decreases group.transitions@.len() - e,
        {
            let entry = &group.transitions[e];
            out.push(
                Transition {
                    initial_state: group.initial_state.clone(),
                    input_value: entry.input_value.clone(),
                    final_state: entry.final_state.clone(),
                    output: match &entry.output {
                        Some(o) => Some(o.clone()),
                        None => None,
                    },
                },
            );
            proof {
                assert(group_rules(*group).take(e + 1) =~= group_rules(*group).take(e as int)
                    + seq![group_rules(*group)[e as int]]);
            }
            e += 1;
        }
        proof {
            assert(group_rules(*group).take(group.transitions@.len() as int) =~= group_rules(
                *group,
            ));
            assert(def.transitions@.take(g + 1).drop_last() =~= def.transitions@.take(g as int));
            assert(def.transitions@.take(g + 1).last() == def.transitions@[g as int]);
        }
        g += 1;
    }
    proof {
        assert(def.transitions@.take(def.transitions@.len() as int) =~= def.transitions@);
    }
    out
}

/// Whether some string of the vector spells the same name as `name`.
fn contains_name_exec(v: &Vec<String>, name: &String) -> (r: bool)
    ensures
        r == contains_name(v@, name@),
{
    let mut j: usize = 0;
    while j < v.len()
        invariant
            j <= v@.len(),
            forall|k: int| 0 <= k < j ==> v@[k]@ != name@,
        decreases v@.len() - j,
    {
        if v[j] == *name {
            return true;
        }
        j += 1;
    }
    false
}

/// Keeps the first appearance of every name, dropping later duplicates.
fn dedup_vec(names: &Vec<String>) -> (r: Vec<String>)
    ensures
        r@ == dedup_names(names@),
{
    let mut out: Vec<String> = Vec::new();
    let mut i: usize = 0;
    while i < names.len()
        invariant
            i <= names@.len(),
            out@ == dedup_names(names@.take(i as int)),
            forall|n: Seq<char>| contains_name(out@, n) == contains_name(
                names@.take(i as int),
                n,
            ),
        decreases names@.len() - i,
    {
        proof {
            assert(names@.take(i + 1).drop_last() =~= names@.take(i as int));
            assert(names@.take(i + 1).last() == names@[i as int]);
        }
        let ghost prev_out = out@;
        let ghost prev_names = names@.take(i as int);
        if !contains_name_exec(&out, &names[i]) {
            out.push(names[i].clone());
            proof {
                assert(out@ =~= prev_out + seq![names@[i as int]]);
            }
        }
        proof {
            let prefix = names@.take(i + 1);
            assert forall|n: Seq<char>| contains_name(out@, n) == contains_name(prefix, n) by {
                if contains_name(prefix, n) {
                    let j = choose|j: int| 0 <= j < prefix.len() && prefix[j]@ == n;
                    if j < i {
                        assert(prev_names[j]@ == n);
                        assert(contains_name(prev_names, n));
                        assert(contains_name(prev_out, n));
                        let k = choose|k: int| 0 <= k < prev_out.len() && prev_out[k]@ == n;
                        assert(out@[k]@ == n);
                        assert(contains_name(out@, n));
                    } else {
                        assert(names@[i as int]@ == n);
                        if contains_name(prev_names, names@[i as int]@) {
                            assert(contains_name(prev_out, n));
                            let k = choose|k: int|
                                0 <= k < prev_out.len() && prev_out[k]@ == n;
                            assert(out@[k]@ == n);
                        } else {
                            assert(out@[out@.len() - 1]@ == n);
                        }
                        assert(contains_name(out@, n));
                    }
                }
                if contains_name(out@, n) {
                    let k = choose|k: int| 0 <= k < out@.len() && out@[k]@ == n;
                    if k < prev_out.len() {
                        assert(prev_out[k]@ == n);
                        assert(contains_name(prev_out, n));
                        assert(contains_name(prev_names, n));
                        let j = choose|j: int|
                            0 <= j < prev_names.len() && prev_names[j]@ == n;
                        assert(prefix[j]@ == n);
                    } else {
                        assert(out@[k]@ == names@[i as int]@);
                        assert(prefix[i as int]@ == n);
                    }
                    assert(contains_name(prefix, n));
                }
            }
        }
        i += 1;
    }
    proof {
        assert(names@.take(names@.len() as int) =~= names@);
    }
    out
}

/// Collects every appearance of a state name, in order.
fn state_appearances_exec(initial_state: &String, rules: &Vec<Transition>) -> (r: Vec<String>)
    ensures
        r@ == state_appearances(*initial_state, rules@),
{
    let mut out: Vec<String> = Vec::new();
    out.push(initial_state.clone());
    let mut i: usize = 0;
    while i < rules.len()
        invariant
            i <= rules@.len(),
            out@ == state_appearances(*initial_state, rules@.take(i as int)),
        decreases rules@.len() - i,
    {
        out.push(rules[i].initial_state.clone());
        out.push(rules[i].final_state.clone());
        proof {
            assert(rules@.take(i + 1).drop_last() =~= rules@.take(i as int));
            assert(rules@.take(i + 1).last() == rules@[i as int]);
            assert(out@ =~= state_appearances(*initial_state, rules@.take(i as int)) + seq![
                rules@[i as int].initial_state,
                rules@[i as int].final_state,
            ]);
        }
        i += 1;
    }
    proof {
        assert(rules@.take(rules@.len() as int) =~= rules@);
    }
    out
}

/// Collects every appearance of an input name, in rule order.
fn input_appearances_exec(rules: &Vec<Transition>) -> (r: Vec<String>)
    ensures
        r@ == input_appearances(rules@),
{
    let mut out: Vec<String> = Vec::new();
    let mut i: usize = 0;
    while i < rules.len()
        invariant
            i <= rules@.len(),
            out@ == input_appearances(rules@.take(i as int)),
        decreases rules@.len() - i,
    {
        out.push(rules[i].input_value.clone());
        proof {
            assert(rules@.take(i + 1).drop_last() =~= rules@.take(i as int));
            assert(rules@.take(i + 1).last() == rules@[i as int]);
            assert(out@ =~= input_appearances(rules@.take(i as int)) + seq![
                rules@[i as int].input_value,
            ]);
        }
        i += 1;
    }
    proof {
        assert(rules@.take(rules@.len() as int) =~= rules@);
    }
    out
}

/// Collects every appearance of an output name, in rule order.
fn output_appearances_exec(rules: &Vec<Transition>) -> (r: Vec<String>)
    ensures
        r@ == output_appearances(rules@),
{
    let mut out: Vec<String> = Vec::new();
    let mut i: usize = 0;
    while i < rules.len()
        invariant
            i <= rules@.len(),
            out@ == output_appearances(rules@.take(i as int)),
        decreases rules@.len() - i,
    {
        match &rules[i].output {
            Some(o) => {
                out.push(o.clone());
            },
            None => {},
        }
        proof {
            assert(rules@.take(i + 1).drop_last() =~= rules@.take(i as int));
            assert(rules@.take(i + 1).last() == rules@[i as int]);
            assert(out@ =~= output_appearances(rules@.take(i as int)) + (match rules@[i as int]
                .output {
                Some(o) => seq![o],
                None => Seq::empty(),
            }));
        }
        i += 1;
    }
    proof {
        assert(rules@.take(rules@.len() as int) =~= rules@);
    }
    out
}

/// Derives the three alphabets from the machine's initial state and its
/// flattened rules: deduplicated names in order of first appearance, the
/// state alphabet seeded with the initial state even when it appears in no
/// rule.
pub fn collect_alphabets(initial_state: &String, rules: &Vec<Transition>) -> (r: Alphabets)
    ensures
        r.states@ == state_alphabet(*initial_state, rules@),
        r.inputs@ == input_alphabet(rules@),
        r.outputs@ == output_alphabet(rules@),
{
    let state_names = state_appearances_exec(initial_state, rules);
    let input_names = input_appearances_exec(rules);
    let output_names = output_appearances_exec(rules);
    Alphabets {
        states: dedup_vec(&state_names),
        inputs: dedup_vec(&input_names),
        outputs: dedup_vec(&output_names),
    }
}

/// Deduplication keeps every contained name exactly once and introduces no
/// other name.
proof fn lemma_dedup_count(s: Seq<String>, name: Seq<char>)
    ensures
        count_name(dedup_names(s), name) == if contains_name(s, name) {
            1nat
        } else {
            0nat
        },
    decreases s.len(),
{
    if s.len() == 0 {
        assert(!contains_name(s, name));
    } else {
        lemma_dedup_count(s.drop_last(), name);
        let rest = dedup_names(s.drop_last());
        if contains_name(s.drop_last(), s.last()@) {
            assert(dedup_names(s) == rest);
            if contains_name(s, name) && !contains_name(s.drop_last(), name) {
                let j = choose|j: int| 0 <= j < s.len() && s[j]@ == name;
                if j < s.len() - 1 {
                    assert(s.drop_last()[j]@ == name);
                } else {
                    assert(s.last()@ == name);
                    assert(contains_name(s.drop_last(), name));
                }
            }
            if contains_name(s.drop_last(), name) {
                let j = choose|j: int| 0 <= j < s.drop_last().len() && s.drop_last()[j]@ == name;
                assert(s[j]@ == name);
            }
        } else {
            let grown = rest + seq![s.last()];
            assert(dedup_names(s) == grown);
            assert(grown.drop_last() =~= rest);
            assert(grown.last() == s.last());
            assert(count_name(grown, name) == count_name(rest, name) + (if s.last()@ == name {
                1nat
            } else {
                0nat
            }));
            if s.last()@ == name {
                assert(!contains_name(s.drop_last(), name));
                assert(contains_name(s, name)) by {
                    assert(s[s.len() - 1]@ == name);
                }
            } else {
                if contains_name(s, name) {
                    let j = choose|j: int| 0 <= j < s.len() && s[j]@ == name;
                    assert(s.drop_last()[j]@ == name);
                }
                if contains_name(s.drop_last(), name) {
                    let j = choose|j: int|
                        0 <= j < s.drop_last().len() && s.drop_last()[j]@ == name;
                    assert(s[j]@ == name);
                }
            }
        }
    }
}

/// A state name appears in the appearance list exactly when it is the
/// machine's initial state or an initial or final state of some rule.
proof fn lemma_state_appearances_contains(
    initial: String,
    rules: Seq<Transition>,
    name: Seq<char>,
)
    ensures
        contains_name(state_appearances(initial, rules), name) <==> (name == initial@ || exists|
            j: int,
        |
            0 <= j < rules.len() && (rules[j].initial_state@ == name || rules[j].final_state@
                == name)),
    decreases rules.len(),
{
    let app = state_appearances(initial, rules);
    if rules.len() == 0 {
        assert(app == seq![initial]);
        if name == initial@ {
            assert(app[0]@ == name);
        }
        if contains_name(app, name) {
            let j = choose|j: int| 0 <= j < app.len() && app[j]@ == name;
            assert(j == 0);
        }
    } else {
        lemma_state_appearances_contains(initial, rules.drop_last(), name);
        let prev = state_appearances(initial, rules.drop_last());
        assert(app == prev + seq![rules.last().initial_state, rules.last().final_state]);
        if contains_name(app, name) {
            let j = choose|j: int| 0 <= j < app.len() && app[j]@ == name;
            if j < prev.len() {
                assert(prev[j]@ == name);
            } else if j == prev.len() {
                assert(rules.last().initial_state@ == name);
                assert(rules[rules.len() - 1].initial_state@ == name);
            } else {
                assert(rules.last().final_state@ == name);
                assert(rules[rules.len() - 1].final_state@ == name);
            }
        }
        if name == initial@ || exists|j: int|
            0 <= j < rules.len() && (rules[j].initial_state@ == name || rules[j].final_state@
                == name) {
            if name == initial@ {
                assert(contains_name(prev, name));
            } else {
                let j = choose|j: int|
                    0 <= j < rules.len() && (rules[j].initial_state@ == name
                        || rules[j].final_state@ == name);
                if j < rules.len() - 1 {
                    assert(rules.drop_last()[j].initial_state@ == name
                        || rules.drop_last()[j].final_state@ == name);
                    assert(contains_name(prev, name));
                } else {
                    if rules.last().initial_state@ == name {
                        assert(app[prev.len() as int]@ == name);
                    } else {
                        assert(app[prev.len() as int + 1]@ == name);
                    }
                }
            }
            if contains_name(prev, name) {
                let j = choose|j: int| 0 <= j < prev.len() && prev[j]@ == name;
                assert(app[j]@ == name);
            }
        }
    }
}

/// Each identifier appearing as an initial state or final state of any
/// rule, and the machine's initial state itself, is present exactly once
/// in the state alphabet; no other name is present.
pub proof fn lemma_state_alphabet_exactly_once(
    initial: String,
    rules: Seq<Transition>,
    name: Seq<char>,
)
    ensures
        count_name(state_alphabet(initial, rules), name) == if (name == initial@ || exists|j: int|
            0 <= j < rules.len() && (rules[j].initial_state@ == name || rules[j].final_state@
                == name)) {
            1nat
        } else {
            0nat
        },
{
    lemma_state_appearances_contains(initial, rules, name);
    lemma_dedup_count(state_appearances(initial, rules), name);
}

} // verus!
