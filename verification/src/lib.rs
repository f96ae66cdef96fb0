//! A compiler for a small textual language that describes deterministic
//! finite-state machines (Mealy machines), together with a runtime holder
//! that drives a compiled machine.
//!
//! The pipeline is: DSL text -> tokens -> abstract syntax tree -> flattened
//! transition rules -> semantic validation -> compiled lookup table and
//! rendered artifact text. Every stage is a pure function with a proved
//! contract; a definition is either compiled whole or rejected with one of
//! the errors in [`error`], never turned into a partial artifact.

use vstd::prelude::*;

pub mod alphabet;
pub mod ast;
pub mod emit;
pub mod error;
pub mod machine;
pub mod parser;
pub mod table;
pub mod validate;

use crate::alphabet::{collect_alphabets, flatten, flatten_of};
use crate::ast::{StateMachineDef, Transition, TransitionDef};
use crate::emit::{artifact_of, diagram_of, emit_artifact, emit_diagram};
use crate::error::CompileError;
use crate::parser::{
    def_matches, group_matches, entry_matches, lex_at, opt_name_matches, parse_def_at,
    parse_definition, wf_def, DefShape, GroupShape,
};
use crate::table::{same_key, unique_keys, CompiledTable};
use crate::validate::{is_first_conflict, validate};

verus! {

/// One flattened transition rule as the source text spells it.
pub struct RuleShape {
    /// The state the rule leaves from.
    pub initial_state: Seq<char>,
    /// The input that triggers the rule.
    pub input_value: Seq<char>,
    /// The state the rule moves to.
    pub final_state: Seq<char>,
    /// The output of the rule, if one was given.
    pub output: Option<Seq<char>>,
}

/// The flattened rules of one group of the source text.
pub open spec fn group_rule_shapes(g: GroupShape) -> Seq<RuleShape> {
    Seq::new(
        g.entries.len(),
        |i: int|
            RuleShape {
                initial_state: g.initial_state,
                input_value: g.entries[i].input_value,
                final_state: g.entries[i].final_state,
                output: g.entries[i].output,
            },
    )
}

/// All flattened rules of the source text's groups, in declaration order.
pub open spec fn shape_rules(gs: Seq<GroupShape>) -> Seq<RuleShape>
    decreases gs.len(),
{
    if gs.len() == 0 {
        Seq::empty()
    } else {
        shape_rules(gs.drop_last()) + group_rule_shapes(gs.last())
    }
}

/// Whether two rules of the source text share a (initial_state, input)
/// key.
pub open spec fn shape_same_key(a: RuleShape, b: RuleShape) -> bool {
    a.initial_state == b.initial_state && a.input_value == b.input_value
}

/// Whether no two rules of the source text share a key.
pub open spec fn shape_unique_keys(rs: Seq<RuleShape>) -> bool {
    forall|j: int, k: int| 0 <= j < k < rs.len() ==> !shape_same_key(rs[j], rs[k])
}

/// Whether rules `j` and `k` of the source text are its first conflicting
/// pair: the earliest rule `k` that repeats an already mapped key, paired
/// with the earliest earlier rule `j` mapping that key.
pub open spec fn shape_is_first_conflict(rs: Seq<RuleShape>, j: int, k: int) -> bool {
    &&& 0 <= j < k < rs.len()
    &&& shape_same_key(rs[j], rs[k])
    &&& forall|j2: int, k2: int| 0 <= j2 < k2 < k ==> !shape_same_key(rs[j2], rs[k2])
    &&& forall|j2: int| 0 <= j2 < j ==> !shape_same_key(rs[j2], rs[k])
}

/// Whether a flattened rule carries the names of its shape.
pub open spec fn rule_matches_shape(r: Transition, v: RuleShape) -> bool {
    &&& r.initial_state@ == v.initial_state
    &&& r.input_value@ == v.input_value
    &&& r.final_state@ == v.final_state
    &&& opt_name_matches(r.output, v.output)
}

/// Whether the text lexes and spells the grammar of a definition.
pub open spec fn text_parses(text: Seq<char>) -> bool {
    match lex_at(text, 0) {
        Some(ls) => parse_def_at(ls, 0) is Some,
        None => false,
    }
}

/// The definition that the text spells; meaningful only when the text
/// parses.
pub open spec fn text_def(text: Seq<char>) -> DefShape {
    parse_def_at(lex_at(text, 0).unwrap(), 0).unwrap()
}

/// Whether the text compiles: it parses, declares at least one rule, and
/// no two of its rules share a (initial_state, input) key.
pub open spec fn text_compiles(text: Seq<char>) -> bool {
    &&& text_parses(text)
    &&& shape_rules(text_def(text).groups).len() > 0
    &&& shape_unique_keys(shape_rules(text_def(text).groups))
}

/// Flattening parsed groups yields, rule for rule, the rules that the
/// source text spells.
proof fn lemma_flatten_matches(groups: Seq<TransitionDef>, shapes: Seq<GroupShape>)
    requires
        groups.len() == shapes.len(),
        forall|i: int| 0 <= i < shapes.len() ==> group_matches(#[trigger] groups[i], shapes[i]),
    ensures
        flatten_of(groups).len() == shape_rules(shapes).len(),
        forall|i: int| 0 <= i < shape_rules(shapes).len() ==> rule_matches_shape(
            #[trigger] flatten_of(groups)[i],
            shape_rules(shapes)[i],
        ),
    decreases groups.len(),
{
    if groups.len() > 0 {
        let gprev = groups.drop_last();
        let sprev = shapes.drop_last();
        assert(forall|i: int| 0 <= i < sprev.len() ==> group_matches(
            #[trigger] gprev[i],
            sprev[i],
        ));
        lemma_flatten_matches(gprev, sprev);
        let n1 = flatten_of(gprev).len() as int;
        let last_rules = crate::alphabet::group_rules(groups.last());
        let last_shapes = group_rule_shapes(shapes.last());
        assert(group_matches(groups[groups.len() - 1], shapes[shapes.len() - 1]));
        assert(last_rules.len() == last_shapes.len());
        assert forall|i: int| 0 <= i < last_shapes.len() implies rule_matches_shape(
            last_rules[i],
            #[trigger] last_shapes[i],
        ) by {
            assert(entry_matches(
                groups.last().transitions@[i],
                shapes.last().entries[i],
            ));
        }
        assert forall|i: int| 0 <= i < shape_rules(shapes).len() implies rule_matches_shape(
            #[trigger] flatten_of(groups)[i],
            shape_rules(shapes)[i],
        ) by {
            if i < n1 {
                assert(flatten_of(groups)[i] == flatten_of(gprev)[i]);
                assert(shape_rules(shapes)[i] == shape_rules(sprev)[i]);
            } else {
                assert(flatten_of(groups)[i] == last_rules[i - n1]);
                assert(shape_rules(shapes)[i] == last_shapes[i - n1]);
            }
        }
    }
}

/// A compiled state machine: the lookup table driving the runtime holder,
/// the rendered artifact source text, and optionally the diagram text.
/// Immutable once compiled.
#[derive(Debug)]
pub struct Artifact {
    /// The compiled transition/output table.
    pub table: CompiledTable,
    /// The rendered artifact source text.
    pub source: String,
    /// The rendered diagram text, when it was asked for.
    pub diagram: Option<String>,
}

/// Compiles a parsed definition: flattens its groups, validates the
/// flattened rules, and renders the artifact. Succeeds exactly when the
/// definition has at least one rule and no two rules share a
/// (initial_state, input) key; no partial artifact is ever produced.
pub fn compile_def(def: &StateMachineDef, diagram: bool) -> (r: Result<Artifact, CompileError>)
    ensures
        r is Ok <==> flatten_of(def.transitions@).len() > 0 && unique_keys(
            flatten_of(def.transitions@),
        ),
        match r {
            Ok(a) => {
                &&& a.table.rules@ == flatten_of(def.transitions@)
                &&& a.table.initial_state == def.initial_state
                &&& unique_keys(a.table.rules@)
                &&& a.table.rules@.len() > 0
                &&& a.source@ == artifact_of(*def, flatten_of(def.transitions@))
                &&& match a.diagram {
                    Some(d) => diagram && d@ == diagram_of(
                        def.initial_state,
                        flatten_of(def.transitions@),
                    ),
                    None => !diagram,
                }
            },
            Err(e) => match e {
                CompileError::EmptySpecError => flatten_of(def.transitions@).len() == 0,
                CompileError::ConflictingTransitionError { first, second } => exists|
                    j: int,
                    k: int,
                |
                    is_first_conflict(flatten_of(def.transitions@), j, k) && first == flatten_of(
                        def.transitions@,
                    )[j] && second == flatten_of(def.transitions@)[k],
                _ => false,
            },
        },
{
    let rules = flatten(def);
    match validate(&rules) {
        Ok(_) => {},
        Err(e) => {
            return Err(e);
        },
    }
    let alphabets = collect_alphabets(&def.initial_state, &rules);
    let source = emit_artifact(def, &rules, &alphabets);
    let diagram_text = if diagram {
        Some(emit_diagram(&def.initial_state, &rules))
    } else {
        None
    };
    Ok(
        Artifact {
            table: CompiledTable { rules, initial_state: def.initial_state.clone() },
            source,
            diagram: diagram_text,
        },
    )
}

/// Compiles DSL text into an artifact: parses the text, validates the
/// definition, and renders the table and the artifact text. Succeeds
/// exactly when the text spells the grammar, declares at least one rule,
/// and maps no (initial_state, input) key twice; each error names its own
/// failure. On success the artifact is the compilation of the well-formed
/// definition the text spells: its table holds that definition's flattened
/// rules with unique keys, and its texts are the exact renderings of that
/// definition.
pub fn compile(text: &str, diagram: bool) -> (r: Result<Artifact, CompileError>)
    ensures
        r is Ok <==> text_compiles(text@),
        match r {
            Err(e) => match e {
                CompileError::GrammarError { position } => !text_parses(text@) && (match lex_at(
                    text@,
                    0,
                ) {
                    None => crate::parser::lex_failure_at(text@, 0) == Some(position as int),
                    Some(_) => position as int == text@.len() || (match crate::parser::lex_starts_at(
                        text@,
                        0,
                    ) {
                        Some(ss) => exists|p: int|
                            0 <= p < ss.len() && #[trigger] ss[p] == position as int,
                        None => false,
                    }),
                }),
                CompileError::EmptyCompactBlockError { initial_state } => !text_parses(text@)
                    && (match lex_at(text@, 0) {
                    Some(ls) => exists|k: int|
                        crate::parser::empty_block_at(ls, k) && ls[k]
                            == crate::parser::Lexeme::Ident(initial_state@),
                    None => false,
                }),
                CompileError::EmptySpecError => text_parses(text@) && shape_rules(
                    text_def(text@).groups,
                ).len() == 0,
                CompileError::ConflictingTransitionError { first, second } => text_parses(text@)
                    && shape_rules(text_def(text@).groups).len() > 0 && !shape_unique_keys(
                    shape_rules(text_def(text@).groups),
                ) && exists|j: int, k: int|
                    #[trigger] shape_is_first_conflict(shape_rules(text_def(text@).groups), j, k)
                        && rule_matches_shape(first, shape_rules(text_def(text@).groups)[j])
                        && rule_matches_shape(second, shape_rules(text_def(text@).groups)[k]),
            },
            Ok(_) => true,
        },
        match r {
            Ok(a) => {
                &&& a.table.initial_state@ == text_def(text@).initial_state
                &&& a.table.rules@.len() == shape_rules(text_def(text@).groups).len()
                &&& forall|i: int| 0 <= i < a.table.rules@.len() ==> rule_matches_shape(
                    #[trigger] a.table.rules@[i],
                    shape_rules(text_def(text@).groups)[i],
                )
            },
            Err(_) => true,
        },
        match r {
            Ok(a) => exists|def: StateMachineDef|
                {
                    &&& #[trigger] wf_def(def)
                    &&& def_matches(def, text_def(text@))
                    &&& a.table.rules@ == flatten_of(def.transitions@)
                    &&& a.table.initial_state == def.initial_state
                    &&& unique_keys(a.table.rules@)
                    &&& a.table.rules@.len() > 0
                    &&& a.source@ == artifact_of(def, flatten_of(def.transitions@))
                    &&& match a.diagram {
                        Some(d) => diagram && d@ == diagram_of(
                            def.initial_state,
                            flatten_of(def.transitions@),
                        ),
                        None => !diagram,
                    }
                },
            Err(_) => true,
        },
{
    let def = match parse_definition(text) {
        Ok(d) => d,
        Err(e) => {
            proof {
                assert(!text_parses(text@));
            }
            return Err(e);
        },
    };
    let result = compile_def(&def, diagram);
    proof {
        let ls = lex_at(text@, 0).unwrap();
        let v = parse_def_at(ls, 0).unwrap();
        assert(text_parses(text@));
        assert(text_def(text@) == v);
        assert(def_matches(def, v));
        lemma_flatten_matches(def.transitions@, v.groups);
        let fr = flatten_of(def.transitions@);
        let sr = shape_rules(v.groups);
        assert(fr.len() == sr.len());
        assert forall|a: int, b: int| 0 <= a < b < fr.len() implies same_key(fr[a], fr[b])
            == shape_same_key(sr[a], sr[b]) by {
            assert(rule_matches_shape(fr[a], sr[a]));
            assert(rule_matches_shape(fr[b], sr[b]));
        }
        match &result {
            Err(CompileError::ConflictingTransitionError { first, second }) => {
                let (j, k) = choose|j: int, k: int|
                    is_first_conflict(fr, j, k) && *first == fr[j] && *second == fr[k];
                assert(shape_is_first_conflict(sr, j, k)) by {
                    assert forall|j2: int, k2: int| 0 <= j2 < k2 < k implies !shape_same_key(
                        sr[j2],
                        sr[k2],
                    ) by {
                        assert(!same_key(fr[j2], fr[k2]));
                    }
                    assert forall|j2: int| 0 <= j2 < j implies !shape_same_key(
                        sr[j2],
                        sr[k],
                    ) by {
                        assert(!same_key(fr[j2], fr[k]));
                    }
                }
                assert(rule_matches_shape(*first, sr[j]));
                assert(rule_matches_shape(*second, sr[k]));
            },
            _ => {},
        }
        if unique_keys(fr) {
            assert forall|j: int, k: int| 0 <= j < k < sr.len() implies !shape_same_key(
                sr[j],
                sr[k],
            ) by {
                assert(rule_matches_shape(fr[j], sr[j]));
                assert(rule_matches_shape(fr[k], sr[k]));
                assert(!same_key(fr[j], fr[k]));
            }
            assert(shape_unique_keys(sr));
        }
        if shape_unique_keys(sr) {
            assert forall|j: int, k: int| 0 <= j < k < fr.len() implies !same_key(
                fr[j],
                fr[k],
            ) by {
                assert(rule_matches_shape(fr[j], sr[j]));
                assert(rule_matches_shape(fr[k], sr[k]));
                assert(!shape_same_key(sr[j], sr[k]));
            }
            assert(unique_keys(fr));
        }
    }
    result
}

} // verus!
