//! The artifact emitter: renders, under a namespace named after the
//! definition, the enumerations for the three alphabets (in alphabet
//! order), the initial-state constant, and the two compiled functions as
//! exhaustive matches with a trailing fallback; and, separately, the
//! diagram text walking the flattened rules in declaration order.
//!
//! Every rendering function is specified exactly: the returned text equals
//! a specification-level composition of the same pieces.

use vstd::prelude::*;

use crate::alphabet::{input_alphabet, output_alphabet, state_alphabet, Alphabets};
use crate::ast::{StateMachineDef, Transition, Visibility};

verus! {

/// The text of the visibility modifier, with its trailing space.
pub open spec fn vis_text(v: Visibility) -> Seq<char> {
    match v {
        Visibility::Public => "pub "@,
        Visibility::Private => Seq::<char>::empty(),
    }
}

/// The names joined with a comma and a space between each two.
pub open spec fn joined_names(names: Seq<String>) -> Seq<char>
    decreases names.len(),
{
    if names.len() == 0 {
        Seq::<char>::empty()
    } else if names.len() == 1 {
        names[0]@
    } else {
        joined_names(names.drop_last()) + ", "@ + names.last()@
    }
}

/// The attribute lines put above an emitted enumeration: the derive list,
/// when one was given, and the representation flag, when it was set.
pub open spec fn attr_text(derives: Seq<String>, repr_c: bool) -> Seq<char> {
    (if derives.len() > 0 {
        "    #[derive("@ + joined_names(derives) + ")]\n"@
    } else {
        Seq::<char>::empty()
    }) + (if repr_c {
        "    #[repr(C)]\n"@
    } else {
        Seq::<char>::empty()
    })
}

/// The line declaring one enumeration member.
pub open spec fn member_line(name: String) -> Seq<char> {
    "        "@ + name@ + ",\n"@
}

/// The member lines of an enumeration, in alphabet order.
pub open spec fn members_text(names: Seq<String>) -> Seq<char>
    decreases names.len(),
{
    if names.len() == 0 {
        Seq::<char>::empty()
    } else {
        members_text(names.drop_last()) + member_line(names.last())
    }
}

/// The text naming the state type inside the artifact: the bound external
/// type when a binding was given, the emitted enumeration otherwise.
pub open spec fn state_type_text(def: StateMachineDef) -> Seq<char> {
    match def.state_type {
        Some(p) => p@,
        None => "State"@,
    }
}

/// The text naming the input type inside the artifact.
pub open spec fn input_type_text(def: StateMachineDef) -> Seq<char> {
    match def.input_type {
        Some(p) => p@,
        None => "Input"@,
    }
}

/// The text naming the output type inside the artifact.
pub open spec fn output_type_text(def: StateMachineDef) -> Seq<char> {
    match def.output_type {
        Some(p) => p@,
        None => "Output"@,
    }
}

/// One emitted enumeration: the attribute lines, the header, the member
/// lines, and the closing brace.
pub open spec fn enum_text(
    derives: Seq<String>,
    repr_c: bool,
    name: Seq<char>,
    members: Seq<String>,
) -> Seq<char> {
    attr_text(derives, repr_c) + "    pub enum "@ + name + " {\n"@ + members_text(members)
        + "    }\n"@
}

/// The state enumeration of the artifact; nothing when a custom state type
/// is bound.
pub open spec fn state_enum_text(def: StateMachineDef, rules: Seq<Transition>) -> Seq<char> {
    match def.state_type {
        Some(_) => Seq::<char>::empty(),
        None => enum_text(
            def.derives@,
            def.repr_c,
            "State"@,
            state_alphabet(def.initial_state, rules),
        ),
    }
}

/// The input enumeration of the artifact; nothing when a custom input type
/// is bound.
pub open spec fn input_enum_text(def: StateMachineDef, rules: Seq<Transition>) -> Seq<char> {
    match def.input_type {
        Some(_) => Seq::<char>::empty(),
        None => enum_text(def.derives@, def.repr_c, "Input"@, input_alphabet(rules)),
    }
}

/// The output type of the artifact: nothing when a custom output type is
/// bound, a unit type alias when the output alphabet is empty, the output
/// enumeration otherwise.
pub open spec fn output_enum_text(def: StateMachineDef, rules: Seq<Transition>) -> Seq<char> {
    match def.output_type {
        Some(_) => Seq::<char>::empty(),
        None => if output_alphabet(rules).len() == 0 {
            "    pub type Output = ();\n"@
        } else {
            enum_text(def.derives@, def.repr_c, "Output"@, output_alphabet(rules))
        },
    }
}

/// The line declaring the initial-state constant.
pub open spec fn initial_const_text(def: StateMachineDef) -> Seq<char> {
    "    pub const INITIAL_STATE: "@ + state_type_text(def) + " = "@ + state_type_text(def) + "::"@
        + def.initial_state@ + ";\n"@
}

/// One match arm of the transition function.
pub open spec fn transition_arm(def: StateMachineDef, r: Transition) -> Seq<char> {
    "            ("@ + state_type_text(def) + "::"@ + r.initial_state@ + ", "@ + input_type_text(
        def,
    ) + "::"@ + r.input_value@ + ") => Some("@ + state_type_text(def) + "::"@ + r.final_state@
        + "),\n"@
}

/// The match arms of the transition function, one per rule, in declaration
/// order.
pub open spec fn transition_arms(def: StateMachineDef, rules: Seq<Transition>) -> Seq<char>
    decreases rules.len(),
{
    if rules.len() == 0 {
        Seq::<char>::empty()
    } else {
        transition_arms(def, rules.drop_last()) + transition_arm(def, rules.last())
    }
}

/// One match arm of the output function; a rule without an output
/// contributes nothing.
pub open spec fn output_arm(def: StateMachineDef, r: Transition) -> Seq<char> {
    match r.output {
        Some(o) => "            ("@ + state_type_text(def) + "::"@ + r.initial_state@ + ", "@
            + input_type_text(def) + "::"@ + r.input_value@ + ") => Some("@ + output_type_text(def)
            + "::"@ + o@ + "),\n"@,
        None => Seq::<char>::empty(),
    }
}

/// The match arms of the output function, in declaration order.
pub open spec fn output_arms(def: StateMachineDef, rules: Seq<Transition>) -> Seq<char>
    decreases rules.len(),
{
    if rules.len() == 0 {
        Seq::<char>::empty()
    } else {
        output_arms(def, rules.drop_last()) + output_arm(def, rules.last())
    }
}

/// The transition function of the artifact: an exhaustive match over the
/// (state, input) pair with a trailing fallback returning `None`.
pub open spec fn transition_fn_text(def: StateMachineDef, rules: Seq<Transition>) -> Seq<char> {
    "    pub fn transition(state: &"@ + state_type_text(def) + ", input: &"@ + input_type_text(def)
        + ") -> Option<"@ + state_type_text(def) + "> {\n        match (state, input) {\n"@
        + transition_arms(def, rules) + "            _ => None,\n        }\n    }\n"@
}

/// The output function of the artifact.
pub open spec fn output_fn_text(def: StateMachineDef, rules: Seq<Transition>) -> Seq<char> {
    "    pub fn output(state: &"@ + state_type_text(def) + ", input: &"@ + input_type_text(def)
        + ") -> Option<"@ + output_type_text(def) + "> {\n        match (state, input) {\n"@
        + output_arms(def, rules) + "            _ => None,\n        }\n    }\n"@
}

/// The whole artifact: a namespace named after the definition holding the
/// enumerations, the initial-state constant and the two compiled
/// functions.
pub open spec fn artifact_of(def: StateMachineDef, rules: Seq<Transition>) -> Seq<char> {
    vis_text(def.visibility) + "mod "@ + def.name@ + " {\n"@ + state_enum_text(def, rules)
        + input_enum_text(def, rules) + output_enum_text(def, rules) + initial_const_text(def)
        + transition_fn_text(def, rules) + output_fn_text(def, rules) + "}\n"@
}

/// One edge line of the diagram.
pub open spec fn edge_line(r: Transition) -> Seq<char> {
    "    "@ + r.initial_state@ + " --> "@ + r.final_state@ + ": "@ + r.input_value@ + (
    match r.output {
        Some(o) => " ["@ + o@ + "]"@,
        None => Seq::<char>::empty(),
    }) + "\n"@
}

/// The edge lines of the diagram, one per rule, in declaration order.
pub open spec fn edges_text(rules: Seq<Transition>) -> Seq<char>
    decreases rules.len(),
{
    if rules.len() == 0 {
        Seq::<char>::empty()
    } else {
        edges_text(rules.drop_last()) + edge_line(rules.last())
    }
}

/// The diagram text: a fenced block holding the initial-state marker line,
/// then one edge line per rule in declaration order.
pub open spec fn diagram_of(initial: String, rules: Seq<Transition>) -> Seq<char> {
    "```mermaid\nstateDiagram-v2\n    [*] --> "@ + initial@ + "\n"@ + edges_text(rules) + "```\n"@
}

/// Appends the names joined with a comma and a space between each two.
fn append_joined(out: &mut String, names: &Vec<String>)
    ensures
        final(out)@ == old(out)@ + joined_names(names@),
{
    proof {
        assert(out@ =~= old(out)@ + joined_names(names@.take(0int)));
    }
    let mut i: usize = 0;
    while i < names.len()
        invariant
            i <= names@.len(),
            out@ == old(out)@ + joined_names(names@.take(i as int)),
        decreases names@.len() - i,
    {
        if i > 0 {
            out.append(", ");
        }
        out.append(names[i].as_str());
        proof {
            let prefix = names@.take(i + 1);
            assert(prefix.drop_last() =~= names@.take(i as int));
            assert(prefix.last() == names@[i as int]);
            if i == 0 {
                assert(prefix.len() == 1);
                assert(out@ =~= old(out)@ + joined_names(prefix));
            } else {
                assert(out@ =~= old(out)@ + joined_names(prefix));
            }
        }
        i += 1;
    }
    proof {
        assert(names@.take(names@.len() as int) =~= names@);
    }
}

/// Appends the attribute lines for an emitted enumeration.
fn append_attrs(out: &mut String, derives: &Vec<String>, repr_c: bool)
    ensures
        final(out)@ == old(out)@ + attr_text(derives@, repr_c),
{
    if derives.len() > 0 {
        out.append("    #[derive(");
        append_joined(out, derives);
        out.append(")]\n");
    }
    if repr_c {
        out.append("    #[repr(C)]\n");
    }
    proof {
        assert(out@ =~= old(out)@ + attr_text(derives@, repr_c));
    }
}

/// Appends the member lines of an enumeration.
fn append_members(out: &mut String, members: &Vec<String>)
    ensures
        final(out)@ == old(out)@ + members_text(members@),
{
    proof {
        assert(out@ =~= old(out)@ + members_text(members@.take(0int)));
    }
    let mut i: usize = 0;
    while i < members.len()
        invariant
            i <= members@.len(),
            out@ == old(out)@ + members_text(members@.take(i as int)),
        decreases members@.len() - i,
    {
        out.append("        ");
        out.append(members[i].as_str());
        out.append(",\n");
        proof {
            let prefix = members@.take(i + 1);
            assert(prefix.drop_last() =~= members@.take(i as int));
            assert(prefix.last() == members@[i as int]);
            assert(out@ =~= old(out)@ + members_text(prefix));
        }
        i += 1;
    }
    proof {
        assert(members@.take(members@.len() as int) =~= members@);
    }
}

/// The text naming the state type, as a fresh string.
fn state_type_string(def: &StateMachineDef) -> (r: String)
    ensures
        r@ == state_type_text(*def),
{
    match &def.state_type {
        Some(p) => p.clone(),
        None => String::from_str("State"),
    }
}

/// The text naming the input type, as a fresh string.
fn input_type_string(def: &StateMachineDef) -> (r: String)
    ensures
        r@ == input_type_text(*def),
{
    match &def.input_type {
        Some(p) => p.clone(),
        None => String::from_str("Input"),
    }
}

/// The text naming the output type, as a fresh string.
fn output_type_string(def: &StateMachineDef) -> (r: String)
    ensures
        r@ == output_type_text(*def),
{
    match &def.output_type {
        Some(p) => p.clone(),
        None => String::from_str("Output"),
    }
}

/// Appends one emitted enumeration.
fn append_enum(
    out: &mut String,
    derives: &Vec<String>,
    repr_c: bool,
    name: &str,
    members: &Vec<String>,
)
    ensures
        final(out)@ == old(out)@ + enum_text(derives@, repr_c, name@, members@),
{
    append_attrs(out, derives, repr_c);
    out.append("    pub enum ");
    out.append(name);
    out.append(" {\n");
    append_members(out, members);
    out.append("    }\n");
    proof {
        assert(out@ =~= old(out)@ + enum_text(derives@, repr_c, name@, members@));
    }
}

/// Appends the match arms of the transition function.
fn append_transition_arms(
    out: &mut String,
    def: &StateMachineDef,
    rules: &Vec<Transition>,
    state_type: &String,
    input_type: &String,
)
    requires
        state_type@ == state_type_text(*def),
        input_type@ == input_type_text(*def),
    ensures
        final(out)@ == old(out)@ + transition_arms(*def, rules@),
{
    proof {
        assert(out@ =~= old(out)@ + transition_arms(*def, rules@.take(0int)));
    }
    let mut i: usize = 0;
    while i < rules.len()
        invariant
            i <= rules@.len(),
            state_type@ == state_type_text(*def),
            input_type@ == input_type_text(*def),
            out@ == old(out)@ + transition_arms(*def, rules@.take(i as int)),
        decreases rules@.len() - i,
    {
        out.append("            (");
        out.append(state_type.as_str());
        out.append("::");
        out.append(rules[i].initial_state.as_str());
        out.append(", ");
        out.append(input_type.as_str());
        out.append("::");
        out.append(rules[i].input_value.as_str());
        out.append(") => Some(");
        out.append(state_type.as_str());
        out.append("::");
        out.append(rules[i].final_state.as_str());
        out.append("),\n");
        proof {
            let prefix = rules@.take(i + 1);
            assert(prefix.drop_last() =~= rules@.take(i as int));
            assert(prefix.last() == rules@[i as int]);
            assert(out@ =~= old(out)@ + transition_arms(*def, prefix));
        }
        i += 1;
    }
    proof {
        assert(rules@.take(rules@.len() as int) =~= rules@);
    }
}

/// Appends the match arms of the output function.
fn append_output_arms(
    out: &mut String,
    def: &StateMachineDef,
    rules: &Vec<Transition>,
    state_type: &String,
    input_type: &String,
    output_type: &String,
)
    requires
        state_type@ == state_type_text(*def),
        input_type@ == input_type_text(*def),
        output_type@ == output_type_text(*def),
    ensures
        final(out)@ == old(out)@ + output_arms(*def, rules@),
{
    proof {
        assert(out@ =~= old(out)@ + output_arms(*def, rules@.take(0int)));
    }
    let mut i: usize = 0;
    while i < rules.len()
        invariant
            i <= rules@.len(),
            state_type@ == state_type_text(*def),
            input_type@ == input_type_text(*def),
            output_type@ == output_type_text(*def),
            out@ == old(out)@ + output_arms(*def, rules@.take(i as int)),
        decreases rules@.len() - i,
    {
        match &rules[i].output {
            Some(o) => {
                out.append("            (");
                out.append(state_type.as_str());
                out.append("::");
                out.append(rules[i].initial_state.as_str());
                out.append(", ");
                out.append(input_type.as_str());
                out.append("::");
                out.append(rules[i].input_value.as_str());
                out.append(") => Some(");
                out.append(output_type.as_str());
                out.append("::");
                out.append(o.as_str());
                out.append("),\n");
            },
            None => {},
        }
        proof {
            let prefix = rules@.take(i + 1);
            assert(prefix.drop_last() =~= rules@.take(i as int));
            assert(prefix.last() == rules@[i as int]);
            assert(out@ =~= old(out)@ + output_arms(*def, prefix));
        }
        i += 1;
    }
    proof {
        assert(rules@.take(rules@.len() as int) =~= rules@);
    }
}

/// Renders the artifact text for a definition and its flattened rules: the
/// namespace named after the definition, the enumerations for the
/// alphabets not bound to custom types (members in alphabet order), the
/// initial-state constant, and the two compiled functions as exhaustive
/// matches with a trailing fallback.
#[verifier::rlimit(60)]
pub fn emit_artifact(def: &StateMachineDef, rules: &Vec<Transition>, alphabets: &Alphabets) -> (r:
    String)
    requires
        alphabets.states@ == state_alphabet(def.initial_state, rules@),
        alphabets.inputs@ == input_alphabet(rules@),
        alphabets.outputs@ == output_alphabet(rules@),
    ensures
        r@ == artifact_of(*def, rules@),
{
    let state_type = state_type_string(def);
    let input_type = input_type_string(def);
    let output_type = output_type_string(def);
    let mut out = String::new();
    match def.visibility {
        Visibility::Public => {
            out.append("pub ");
        },
        Visibility::Private => {},
    }
    out.append("mod ");
    out.append(def.name.as_str());
    out.append(" {\n");
    let ghost header = vis_text(def.visibility) + "mod "@ + def.name@ + " {\n"@;
    proof {
        assert(out@ =~= header);
    }
    match &def.state_type {
        Some(_) => {},
        None => {
            append_enum(&mut out, &def.derives, def.repr_c, "State", &alphabets.states);
        },
    }
    proof {
        assert(out@ =~= header + state_enum_text(*def, rules@));
    }
    match &def.input_type {
        Some(_) => {},
        None => {
            append_enum(&mut out, &def.derives, def.repr_c, "Input", &alphabets.inputs);
        },
    }
    let ghost enums1 = header + state_enum_text(*def, rules@) + input_enum_text(*def, rules@);
    proof {
        assert(out@ =~= enums1);
    }
    match &def.output_type {
        Some(_) => {},
        None => {
            if alphabets.outputs.len() == 0 {
                out.append("    pub type Output = ();\n");
            } else {
                append_enum(&mut out, &def.derives, def.repr_c, "Output", &alphabets.outputs);
            }
        },
    }
    let ghost enums2 = enums1 + output_enum_text(*def, rules@);
    proof {
        assert(out@ =~= enums2);
    }
    out.append("    pub const INITIAL_STATE: ");
    out.append(state_type.as_str());
    out.append(" = ");
    out.append(state_type.as_str());
    out.append("::");
    out.append(def.initial_state.as_str());
    out.append(";\n");
    let ghost consts = enums2 + initial_const_text(*def);
    proof {
        assert(out@ =~= consts);
    }
    out.append("    pub fn transition(state: &");
    out.append(state_type.as_str());
    out.append(", input: &");
    out.append(input_type.as_str());
    out.append(") -> Option<");
    out.append(state_type.as_str());
    out.append("> {\n        match (state, input) {\n");
    append_transition_arms(&mut out, def, rules, &state_type, &input_type);
    out.append("            _ => None,\n        }\n    }\n");
    let ghost fns1 = consts + transition_fn_text(*def, rules@);
    proof {
        assert(out@ =~= fns1);
    }
    out.append("    pub fn output(state: &");
    out.append(state_type.as_str());
    out.append(", input: &");
    out.append(input_type.as_str());
    out.append(") -> Option<");
    out.append(output_type.as_str());
    out.append("> {\n        match (state, input) {\n");
    append_output_arms(&mut out, def, rules, &state_type, &input_type, &output_type);
    out.append("            _ => None,\n        }\n    }\n");
    out.append("}\n");
    proof {
        assert(out@ =~= artifact_of(*def, rules@));
    }
    out
}

/// Renders the diagram text: a fenced block with the initial-state marker
/// line, then one edge line per flattened rule in declaration order.
pub fn emit_diagram(initial_state: &String, rules: &Vec<Transition>) -> (r: String)
    ensures
        r@ == diagram_of(*initial_state, rules@),
{
    let mut out = String::new();
    out.append("```mermaid\nstateDiagram-v2\n    [*] --> ");
    out.append(initial_state.as_str());
    out.append("\n");
    let ghost header = "```mermaid\nstateDiagram-v2\n    [*] --> "@ + initial_state@ + "\n"@;
    proof {
        assert(out@ =~= header);
        assert(out@ =~= header + edges_text(rules@.take(0int)));
    }
    let mut i: usize = 0;
    while i < rules.len()
        invariant
            i <= rules@.len(),
            out@ == header + edges_text(rules@.take(i as int)),
        decreases rules@.len() - i,
    {
        out.append("    ");
        out.append(rules[i].initial_state.as_str());
        out.append(" --> ");
        out.append(rules[i].final_state.as_str());
        out.append(": ");
        out.append(rules[i].input_value.as_str());
        match &rules[i].output {
            Some(o) => {
                out.append(" [");
                out.append(o.as_str());
                out.append("]");
            },
            None => {},
        }
        out.append("\n");
        proof {
            let prefix = rules@.take(i + 1);
            assert(prefix.drop_last() =~= rules@.take(i as int));
            assert(prefix.last() == rules@[i as int]);
            assert(out@ =~= header + edges_text(prefix));
        }
        i += 1;
    }
    out.append("```\n");
    proof {
        assert(rules@.take(rules@.len() as int) =~= rules@);
        assert(out@ =~= diagram_of(*initial_state, rules@));
    }
    out
}

} // verus!
