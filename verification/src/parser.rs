//! The parser: turns DSL text into a [`StateMachineDef`]. The grammar is
//!
//! ```text
//! definition  := directive* Name ( InitialState ) groups
//! directive   := pub | derive ( Name , ... ) | repr_c ( true|false )
//!              | input ( path ) | state ( path ) | output ( path )
//! path        := Name :: ... :: Name
//! groups      := group , ... , group ,?
//! group       := InitialState ( Input ) => FinalState output?
//!              | InitialState => { entry , ... , entry ,? }
//! entry       := Input => FinalState output?
//! output      := [ Name ]
//! ```
//!
//! Directives may come in any order, at most one of each kind; the words
//! `pub`, `derive`, `repr_c`, `input`, `state` and `output` are reserved
//! and cannot name a machine. A name is an ASCII identifier: a letter or
//! underscore followed by letters, digits and underscores. Parsing is
//! pure: it either produces a whole well-formed definition or fails with
//! an error carrying the character offset of the offending token, never a
//! partial tree.

use vstd::prelude::*;

use crate::ast::{Output, StateMachineDef, TransitionDef, TransitionEntry, Visibility};
use crate::error::CompileError;

verus! {

/// Whether `c` may start an identifier: a letter or an underscore.
pub open spec fn is_ident_start(c: char) -> bool {
    (c as u32 >= 97 && c as u32 <= 122) || (c as u32 >= 65 && c as u32 <= 90) || c == '_'
}

/// Whether `c` may continue an identifier: a letter, a digit or an
/// underscore.
pub open spec fn is_ident_char(c: char) -> bool {
    is_ident_start(c) || (c as u32 >= 48 && c as u32 <= 57)
}

/// Whether `s` spells a well-formed identifier.
pub open spec fn wf_name(s: Seq<char>) -> bool {
    s.len() > 0 && is_ident_start(s[0]) && (forall|i: int| 0 <= i < s.len() ==> is_ident_char(
        #[trigger] s[i],
    ))
}

/// Whether `e` is a well-formed transition entry: every identifier in it is
/// well formed.
pub open spec fn wf_entry(e: TransitionEntry) -> bool {
    &&& wf_name(e.input_value@)
    &&& wf_name(e.final_state@)
    &&& match e.output {
        Some(o) => wf_name(o@),
        None => true,
    }
}

/// Whether `g` is a well-formed transition group: well-formed identifiers
/// and at least one entry.
pub open spec fn wf_group(g: TransitionDef) -> bool {
    &&& wf_name(g.initial_state@)
    &&& g.transitions@.len() >= 1
    &&& forall|i: int| 0 <= i < g.transitions@.len() ==> wf_entry(#[trigger] g.transitions@[i])
}

/// Whether `d` is a well-formed definition: well-formed identifiers
/// throughout, and no empty transition group.
pub open spec fn wf_def(d: StateMachineDef) -> bool {
    &&& wf_name(d.name@)
    &&& wf_name(d.initial_state@)
    &&& forall|i: int| 0 <= i < d.transitions@.len() ==> wf_group(#[trigger] d.transitions@[i])
    &&& forall|i: int| 0 <= i < d.derives@.len() ==> wf_name(#[trigger] d.derives@[i]@)
    &&& match d.input_type {
        Some(p) => p@.len() > 0,
        None => true,
    }
    &&& match d.state_type {
        Some(p) => p@.len() > 0,
        None => true,
    }
    &&& match d.output_type {
        Some(p) => p@.len() > 0,
        None => true,
    }
}

/// One lexical token of the language.
pub enum Token {
    /// An identifier.
    Ident(String),
    /// `(`
    LParen,
    /// `)`
    RParen,
    /// `{`
    LBrace,
    /// `}`
    RBrace,
    /// `[`
    LBracket,
    /// `]`
    RBracket,
    /// `=>`
    Arrow,
    /// `,`
    Comma,
    /// `::`
    PathSep,
}

/// Whether a token is well formed: an identifier token holds a well-formed
/// name.
pub open spec fn token_wf(t: Token) -> bool {
    match t {
        Token::Ident(s) => wf_name(s@),
        _ => true,
    }
}

/// The specification-level form of a token: an identifier is carried as
/// its character sequence.
pub enum Lexeme {
    /// An identifier.
    Ident(Seq<char>),
    /// `(`
    LParen,
    /// `)`
    RParen,
    /// `{`
    LBrace,
    /// `}`
    RBrace,
    /// `[`
    LBracket,
    /// `]`
    RBracket,
    /// `=>`
    Arrow,
    /// `,`
    Comma,
    /// `::`
    PathSep,
}

/// The lexeme of a token.
pub open spec fn token_view(t: Token) -> Lexeme {
    match t {
        Token::Ident(s) => Lexeme::Ident(s@),
        Token::LParen => Lexeme::LParen,
        Token::RParen => Lexeme::RParen,
        Token::LBrace => Lexeme::LBrace,
        Token::RBrace => Lexeme::RBrace,
        Token::LBracket => Lexeme::LBracket,
        Token::RBracket => Lexeme::RBracket,
        Token::Arrow => Lexeme::Arrow,
        Token::Comma => Lexeme::Comma,
        Token::PathSep => Lexeme::PathSep,
    }
}

/// The name under an identifier lexeme.
pub open spec fn name_of(l: Lexeme) -> Seq<char> {
    match l {
        Lexeme::Ident(s) => s,
        _ => Seq::empty(),
    }
}

/// Whether `c` is blank space between tokens.
pub open spec fn is_space_char(c: char) -> bool {
    c == ' ' || c == '\t' || c == '\n' || c == '\r'
}

/// Where the identifier run that is under way at `p` ends: the first
/// position at or after `p` whose character no longer continues an
/// identifier.
pub open spec fn ident_end(text: Seq<char>, p: int) -> int
    decreases text.len() - p,
{
    if p < text.len() && is_ident_char(text[p]) {
        ident_end(text, p + 1)
    } else {
        p
    }
}

/// The end of an identifier run lies at or after its start.
pub proof fn lemma_ident_end_bounds(text: Seq<char>, p: int)
    requires
        p <= text.len(),
    ensures
        p <= ident_end(text, p) <= text.len(),
    decreases text.len() - p,
{
    if p < text.len() && is_ident_char(text[p]) {
        lemma_ident_end_bounds(text, p + 1);
    }
}

/// The end of an identifier run is the position of the first character
/// that no longer continues an identifier.
pub proof fn lemma_ident_end_run(text: Seq<char>, p: int, j: int)
    requires
        0 <= p <= j <= text.len(),
        forall|m: int| p <= m < j ==> is_ident_char(#[trigger] text[m]),
        j == text.len() || !is_ident_char(text[j]),
    ensures
        ident_end(text, p) == j,
    decreases j - p,
{
    if p < j {
        lemma_ident_end_run(text, p + 1, j);
    }
}

/// The token sequence of the text from position `i` on, or nothing when a
/// character at or after `i` fits no token.
pub open spec fn lex_at(text: Seq<char>, i: int) -> Option<Seq<Lexeme>>
    decreases text.len() - i,
    via lex_at_decreases
{
    if i >= text.len() {
        Some(Seq::empty())
    } else if is_space_char(text[i]) {
        lex_at(text, i + 1)
    } else if is_ident_start(text[i]) {
        let j = ident_end(text, i);
        match lex_at(text, j) {
            Some(rest) => Some(seq![Lexeme::Ident(text.subrange(i, j))] + rest),
            None => None,
        }
    } else if text[i] == '(' {
        match lex_at(text, i + 1) {
            Some(rest) => Some(seq![Lexeme::LParen] + rest),
            None => None,
        }
    } else if text[i] == ')' {
        match lex_at(text, i + 1) {
            Some(rest) => Some(seq![Lexeme::RParen] + rest),
            None => None,
        }
    } else if text[i] == '{' {
        match lex_at(text, i + 1) {
            Some(rest) => Some(seq![Lexeme::LBrace] + rest),
            None => None,
        }
    } else if text[i] == '}' {
        match lex_at(text, i + 1) {
            Some(rest) => Some(seq![Lexeme::RBrace] + rest),
            None => None,
        }
    } else if text[i] == '[' {
        match lex_at(text, i + 1) {
            Some(rest) => Some(seq![Lexeme::LBracket] + rest),
            None => None,
        }
    } else if text[i] == ']' {
        match lex_at(text, i + 1) {
            Some(rest) => Some(seq![Lexeme::RBracket] + rest),
            None => None,
        }
    } else if text[i] == ',' {
        match lex_at(text, i + 1) {
            Some(rest) => Some(seq![Lexeme::Comma] + rest),
            None => None,
        }
    } else if text[i] == '=' {
        if i + 1 < text.len() && text[i + 1] == '>' {
            match lex_at(text, i + 2) {
                Some(rest) => Some(seq![Lexeme::Arrow] + rest),
                None => None,
            }
        } else {
            None
        }
    } else if text[i] == ':' {
        if i + 1 < text.len() && text[i + 1] == ':' {
            match lex_at(text, i + 2) {
                Some(rest) => Some(seq![Lexeme::PathSep] + rest),
                None => None,
            }
        } else {
            None
        }
    } else {
        None
    }
}

#[via_fn]
proof fn lex_at_decreases(text: Seq<char>, i: int) {
    if i < text.len() && !is_space_char(text[i]) && is_ident_start(text[i]) {
        lemma_ident_end_bounds(text, i + 1);
    }
}

/// The lexemes of a token sequence.
pub open spec fn lexemes_of(ts: Seq<Token>) -> Seq<Lexeme> {
    ts.map_values(|t: Token| token_view(t))
}

/// The start offsets of a token sequence, as mathematical integers.
pub open spec fn starts_of(ss: Seq<usize>) -> Seq<int> {
    ss.map_values(|u: usize| u as int)
}

/// The start offset of each token of the text from position `i` on, or
/// nothing when a character at or after `i` fits no token.
pub open spec fn lex_starts_at(text: Seq<char>, i: int) -> Option<Seq<int>>
    decreases text.len() - i,
    via lex_starts_at_decreases
{
    if i >= text.len() {
        Some(Seq::empty())
    } else if is_space_char(text[i]) {
        lex_starts_at(text, i + 1)
    } else if is_ident_start(text[i]) {
        match lex_starts_at(text, ident_end(text, i)) {
            Some(rest) => Some(seq![i] + rest),
            None => None,
        }
    } else if text[i] == '(' || text[i] == ')' || text[i] == '{' || text[i] == '}' || text[i]
        == '[' || text[i] == ']' || text[i] == ',' {
        match lex_starts_at(text, i + 1) {
            Some(rest) => Some(seq![i] + rest),
            None => None,
        }
    } else if text[i] == '=' {
        if i + 1 < text.len() && text[i + 1] == '>' {
            match lex_starts_at(text, i + 2) {
                Some(rest) => Some(seq![i] + rest),
                None => None,
            }
        } else {
            None
        }
    } else if text[i] == ':' {
        if i + 1 < text.len() && text[i + 1] == ':' {
            match lex_starts_at(text, i + 2) {
                Some(rest) => Some(seq![i] + rest),
                None => None,
            }
        } else {
            None
        }
    } else {
        None
    }
}

#[via_fn]
proof fn lex_starts_at_decreases(text: Seq<char>, i: int) {
    if i < text.len() && !is_space_char(text[i]) && is_ident_start(text[i]) {
        lemma_ident_end_bounds(text, i + 1);
    }
}

/// The first character offset at which the text stops lexing, or nothing
/// when the whole text lexes.
pub open spec fn lex_failure_at(text: Seq<char>, i: int) -> Option<int>
    decreases text.len() - i,
    via lex_failure_at_decreases
{
    if i >= text.len() {
        None
    } else if is_space_char(text[i]) {
        lex_failure_at(text, i + 1)
    } else if is_ident_start(text[i]) {
        lex_failure_at(text, ident_end(text, i))
    } else if text[i] == '(' || text[i] == ')' || text[i] == '{' || text[i] == '}' || text[i]
        == '[' || text[i] == ']' || text[i] == ',' {
        lex_failure_at(text, i + 1)
    } else if text[i] == '=' {
        if i + 1 < text.len() && text[i + 1] == '>' {
            lex_failure_at(text, i + 2)
        } else {
            Some(i)
        }
    } else if text[i] == ':' {
        if i + 1 < text.len() && text[i + 1] == ':' {
            lex_failure_at(text, i + 2)
        } else {
            Some(i)
        }
    } else {
        Some(i)
    }
}

#[via_fn]
proof fn lex_failure_at_decreases(text: Seq<char>, i: int) {
    if i < text.len() && !is_space_char(text[i]) && is_ident_start(text[i]) {
        lemma_ident_end_bounds(text, i + 1);
    }
}

/// One step of the lexing argument: when the text at `i` lexes to one
/// token followed by whatever the text at `next` lexes to, appending that
/// token keeps the tokens collected so far in step with the whole text.
proof fn lemma_lex_cons(text: Seq<char>, i: int, next: int, prev: Seq<Token>, t: Token)
    requires
        lex_at(text, i) == (match lex_at(text, next) {
            Some(rest) => Some(seq![token_view(t)] + rest),
            None => None::<Seq<Lexeme>>,
        }),
        match lex_at(text, i) {
            Some(rest) => lex_at(text, 0) == Some(lexemes_of(prev) + rest),
            None => lex_at(text, 0) is None,
        },
    ensures
        match lex_at(text, next) {
            Some(rest) => lex_at(text, 0) == Some(lexemes_of(prev + seq![t]) + rest),
            None => lex_at(text, 0) is None,
        },
{
    assert(lexemes_of(prev + seq![t]) =~= lexemes_of(prev) + seq![token_view(t)]);
    match lex_at(text, next) {
        Some(rest) => {
            assert(lexemes_of(prev) + (seq![token_view(t)] + rest) =~= lexemes_of(
                prev + seq![t],
            ) + rest);
        },
        None => {},
    }
}

/// One step of the start-offset argument: like [`lemma_lex_cons`], for
/// the token start offsets.
proof fn lemma_lex_starts_cons(text: Seq<char>, i: int, next: int, prev: Seq<usize>, start: usize)
    requires
        start as int == i,
        lex_starts_at(text, i) == (match lex_starts_at(text, next) {
            Some(rest) => Some(seq![i] + rest),
            None => None::<Seq<int>>,
        }),
        match lex_starts_at(text, i) {
            Some(rest) => lex_starts_at(text, 0) == Some(starts_of(prev) + rest),
            None => lex_starts_at(text, 0) is None,
        },
    ensures
        match lex_starts_at(text, next) {
            Some(rest) => lex_starts_at(text, 0) == Some(starts_of(prev + seq![start]) + rest),
            None => lex_starts_at(text, 0) is None,
        },
{
    assert(starts_of(prev + seq![start]) =~= starts_of(prev) + seq![i]);
    match lex_starts_at(text, next) {
        Some(rest) => {
            assert(starts_of(prev) + (seq![i] + rest) =~= starts_of(prev + seq![start]) + rest);
        },
        None => {},
    }
}

/// The specification-level form of a parsed transition entry.
pub struct EntryShape {
    /// The input that triggers the transition.
    pub input_value: Seq<char>,
    /// The state the machine moves to.
    pub final_state: Seq<char>,
    /// The output of the transition, if one was given.
    pub output: Option<Seq<char>>,
}

/// The specification-level form of a parsed transition group.
pub struct GroupShape {
    /// The state the group's entries leave from.
    pub initial_state: Seq<char>,
    /// The entries of the group.
    pub entries: Seq<EntryShape>,
}

/// The specification-level form of the parsed directives.
pub struct DirectiveShape {
    /// The visibility modifier.
    pub visibility: Visibility,
    /// Whether a visibility keyword was seen.
    pub seen_visibility: bool,
    /// The names of the derive list, in order.
    pub derives: Seq<Seq<char>>,
    /// Whether a derive list was seen.
    pub seen_derive: bool,
    /// The representation flag.
    pub repr_c: bool,
    /// Whether the representation directive was seen.
    pub seen_repr_c: bool,
    /// The custom input type, if bound.
    pub input_type: Option<Seq<char>>,
    /// The custom state type, if bound.
    pub state_type: Option<Seq<char>>,
    /// The custom output type, if bound.
    pub output_type: Option<Seq<char>>,
}

/// The specification-level form of a whole parsed definition.
pub struct DefShape {
    /// The visibility modifier.
    pub visibility: Visibility,
    /// The machine's name.
    pub name: Seq<char>,
    /// The machine's initial state.
    pub initial_state: Seq<char>,
    /// The transition groups, in declaration order.
    pub groups: Seq<GroupShape>,
    /// The names of the derive list, in order.
    pub derives: Seq<Seq<char>>,
    /// The representation flag.
    pub repr_c: bool,
    /// The custom input type, if bound.
    pub input_type: Option<Seq<char>>,
    /// The custom state type, if bound.
    pub state_type: Option<Seq<char>>,
    /// The custom output type, if bound.
    pub output_type: Option<Seq<char>>,
}

/// The directive state before any directive was read.
pub open spec fn no_directives() -> DirectiveShape {
    DirectiveShape {
        visibility: Visibility::Private,
        seen_visibility: false,
        derives: Seq::empty(),
        seen_derive: false,
        repr_c: false,
        seen_repr_c: false,
        input_type: None,
        state_type: None,
        output_type: None,
    }
}

/// Whether a parsed entry carries the names of its shape.
pub open spec fn entry_matches(e: TransitionEntry, v: EntryShape) -> bool {
    &&& e.input_value@ == v.input_value
    &&& e.final_state@ == v.final_state
    &&& match (e.output, v.output) {
        (Some(a), Some(b)) => a@ == b,
        (None, None) => true,
        _ => false,
    }
}

/// The shape of a parsed entry: its names as character sequences.
pub open spec fn entry_shape(e: TransitionEntry) -> EntryShape {
    EntryShape {
        input_value: e.input_value@,
        final_state: e.final_state@,
        output: match e.output {
            Some(o) => Some(o@),
            None => None,
        },
    }
}

/// The shapes of a sequence of parsed entries.
pub open spec fn entries_shapes(es: Seq<TransitionEntry>) -> Seq<EntryShape> {
    es.map_values(|e: TransitionEntry| entry_shape(e))
}

/// Whether a parsed group carries the names of its shape.
pub open spec fn group_matches(g: TransitionDef, v: GroupShape) -> bool {
    &&& g.initial_state@ == v.initial_state
    &&& g.transitions@.len() == v.entries.len()
    &&& forall|i: int| 0 <= i < v.entries.len() ==> entry_matches(
        #[trigger] g.transitions@[i],
        v.entries[i],
    )
}

/// Whether two optional names spell the same text.
pub open spec fn opt_name_matches(a: Option<String>, b: Option<Seq<char>>) -> bool {
    match (a, b) {
        (Some(x), Some(y)) => x@ == y,
        (None, None) => true,
        _ => false,
    }
}

/// Whether a parsed definition carries the content of its shape.
pub open spec fn def_matches(d: StateMachineDef, v: DefShape) -> bool {
    &&& d.visibility == v.visibility
    &&& d.name@ == v.name
    &&& d.initial_state@ == v.initial_state
    &&& d.transitions@.len() == v.groups.len()
    &&& forall|i: int| 0 <= i < v.groups.len() ==> group_matches(
        #[trigger] d.transitions@[i],
        v.groups[i],
    )
    &&& d.derives@.len() == v.derives.len()
    &&& forall|i: int| 0 <= i < v.derives.len() ==> #[trigger] d.derives@[i]@ == v.derives[i]
    &&& d.repr_c == v.repr_c
    &&& opt_name_matches(d.input_type, v.input_type)
    &&& opt_name_matches(d.state_type, v.state_type)
    &&& opt_name_matches(d.output_type, v.output_type)
}

/// The shape of a parsed group: its names as character sequences.
pub open spec fn group_shape(g: TransitionDef) -> GroupShape {
    GroupShape { initial_state: g.initial_state@, entries: entries_shapes(g.transitions@) }
}

/// The shapes of a sequence of parsed groups.
pub open spec fn groups_shapes(gs: Seq<TransitionDef>) -> Seq<GroupShape> {
    gs.map_values(|g: TransitionDef| group_shape(g))
}

/// The shapes of a sequence of parsed names.
pub open spec fn names_shapes(ss: Seq<String>) -> Seq<Seq<char>> {
    ss.map_values(|s: String| s@)
}

/// The shape of an optional parsed name.
pub open spec fn opt_shape(o: Option<String>) -> Option<Seq<char>> {
    match o {
        Some(s) => Some(s@),
        None => None,
    }
}

/// The directive state that the given parsed pieces spell.
pub open spec fn dir_shape(
    visibility: Visibility,
    seen_visibility: bool,
    derives: Seq<String>,
    seen_derive: bool,
    repr_c: bool,
    seen_repr_c: bool,
    input_type: Option<String>,
    state_type: Option<String>,
    output_type: Option<String>,
) -> DirectiveShape {
    DirectiveShape {
        visibility,
        seen_visibility,
        derives: names_shapes(derives),
        seen_derive,
        repr_c,
        seen_repr_c,
        input_type: opt_shape(input_type),
        state_type: opt_shape(state_type),
        output_type: opt_shape(output_type),
    }
}

/// The optional output at `p`: nothing when no bracket stands there, the
/// bracketed name and the position after it otherwise.
pub open spec fn parse_output_at(ls: Seq<Lexeme>, p: int) -> Option<(Option<Seq<char>>, int)> {
    if p < ls.len() && ls[p] is LBracket {
        if p + 2 < ls.len() && ls[p + 1] is Ident && ls[p + 2] is RBracket {
            Some((Some(name_of(ls[p + 1])), p + 3))
        } else {
            None
        }
    } else {
        Some((None, p))
    }
}

/// The transition entry at `p`: `Input => FinalState output?`.
pub open spec fn parse_entry_at(ls: Seq<Lexeme>, p: int) -> Option<(EntryShape, int)> {
    if 0 <= p && p + 2 < ls.len() && ls[p] is Ident && ls[p + 1] is Arrow && ls[p + 2] is Ident {
        match parse_output_at(ls, p + 3) {
            Some((o, q)) => Some(
                (
                    EntryShape {
                        input_value: name_of(ls[p]),
                        final_state: name_of(ls[p + 2]),
                        output: o,
                    },
                    q,
                ),
            ),
            None => None,
        }
    } else {
        None
    }
}

/// The optional output ends at or after where it starts, within bounds.
pub proof fn lemma_parse_output_bounds(ls: Seq<Lexeme>, p: int)
    requires
        0 <= p <= ls.len(),
    ensures
        match parse_output_at(ls, p) {
            Some(v) => p <= v.1 <= ls.len(),
            None => true,
        },
{
}

/// An entry ends strictly after where it starts, within bounds.
pub proof fn lemma_parse_entry_bounds(ls: Seq<Lexeme>, p: int)
    requires
        0 <= p,
    ensures
        match parse_entry_at(ls, p) {
            Some(v) => p + 3 <= v.1 <= ls.len(),
            None => true,
        },
{
    if p + 2 < ls.len() {
        lemma_parse_output_bounds(ls, p + 3);
    }
}

/// The entries of a compact block from `p` on, expecting an entry first,
/// up to and past the closing brace.
pub open spec fn parse_entries_at(ls: Seq<Lexeme>, p: int) -> Option<(Seq<EntryShape>, int)>
    decreases ls.len() - p,
    via parse_entries_at_decreases
{
    match parse_entry_at(ls, p) {
        None => None,
        Some((e, q)) => {
            if q < ls.len() && ls[q] is RBrace {
                Some((seq![e], q + 1))
            } else if q < ls.len() && ls[q] is Comma {
                if q + 1 < ls.len() && ls[q + 1] is RBrace {
                    Some((seq![e], q + 2))
                } else {
                    match parse_entries_at(ls, q + 1) {
                        Some((rest, r)) => Some((seq![e] + rest, r)),
                        None => None,
                    }
                }
            } else {
                None
            }
        },
    }
}

#[via_fn]
proof fn parse_entries_at_decreases(ls: Seq<Lexeme>, p: int) {
    if 0 <= p {
        lemma_parse_entry_bounds(ls, p);
    }
}

/// A run of entries ends strictly after where it starts, within bounds.
pub proof fn lemma_parse_entries_bounds(ls: Seq<Lexeme>, p: int)
    requires
        0 <= p,
    ensures
        match parse_entries_at(ls, p) {
            Some(v) => p < v.1 <= ls.len(),
            None => true,
        },
    decreases ls.len() - p,
{
    lemma_parse_entry_bounds(ls, p);
    match parse_entry_at(ls, p) {
        None => {},
        Some((e, q)) => {
            if q < ls.len() && ls[q] is RBrace {
            } else if q < ls.len() && ls[q] is Comma {
                if q + 1 < ls.len() && ls[q + 1] is RBrace {
                } else {
                    lemma_parse_entries_bounds(ls, q + 1);
                }
            }
        },
    }
}

/// Whether the lexemes at `p` spell a compact block with zero entries:
/// `Name => { }`.
pub open spec fn empty_block_at(ls: Seq<Lexeme>, p: int) -> bool {
    &&& 0 <= p
    &&& p + 3 < ls.len()
    &&& ls[p] is Ident
    &&& ls[p + 1] is Arrow
    &&& ls[p + 2] is LBrace
    &&& ls[p + 3] is RBrace
}

/// The transition group at `p`, in either surface form. A compact block
/// with zero entries parses to nothing, like any other ill-formed group.
pub open spec fn parse_group_at(ls: Seq<Lexeme>, p: int) -> Option<(GroupShape, int)> {
    if 0 <= p && p < ls.len() && ls[p] is Ident {
        if p + 1 < ls.len() && ls[p + 1] is LParen {
            if p + 5 < ls.len() && ls[p + 2] is Ident && ls[p + 3] is RParen && ls[p + 4] is Arrow
                && ls[p + 5] is Ident {
                match parse_output_at(ls, p + 6) {
                    Some((o, q)) => Some(
                        (
                            GroupShape {
                                initial_state: name_of(ls[p]),
                                entries: seq![
                                    EntryShape {
                                        input_value: name_of(ls[p + 2]),
                                        final_state: name_of(ls[p + 5]),
                                        output: o,
                                    },
                                ],
                            },
                            q,
                        ),
                    ),
                    None => None,
                }
            } else {
                None
            }
        } else if p + 2 < ls.len() && ls[p + 1] is Arrow && ls[p + 2] is LBrace {
            if p + 3 < ls.len() && ls[p + 3] is RBrace {
                None
            } else {
                match parse_entries_at(ls, p + 3) {
                    Some((es, q)) => Some(
                        (GroupShape { initial_state: name_of(ls[p]), entries: es }, q),
                    ),
                    None => None,
                }
            }
        } else {
            None
        }
    } else {
        None
    }
}

/// A group ends strictly after where it starts, within bounds.
pub proof fn lemma_parse_group_bounds(ls: Seq<Lexeme>, p: int)
    requires
        0 <= p,
    ensures
        match parse_group_at(ls, p) {
            Some(v) => p < v.1 <= ls.len(),
            None => true,
        },
{
    if p < ls.len() && ls[p] is Ident {
        if p + 1 < ls.len() && ls[p + 1] is LParen {
            if p + 5 < ls.len() {
                lemma_parse_output_bounds(ls, p + 6);
            }
        } else if p + 2 < ls.len() && ls[p + 1] is Arrow && ls[p + 2] is LBrace {
            lemma_parse_entries_bounds(ls, p + 3);
        }
    }
}

/// The comma-separated groups from `p` to the end of the tokens; a
/// trailing comma is allowed.
pub open spec fn parse_groups_at(ls: Seq<Lexeme>, p: int) -> Option<(Seq<GroupShape>, int)>
    decreases ls.len() - p,
    via parse_groups_at_decreases
{
    if p == ls.len() {
        Some((Seq::empty(), p))
    } else {
        match parse_group_at(ls, p) {
            None => None,
            Some((g, q)) => {
                if q == ls.len() {
                    Some((seq![g], q))
                } else if ls[q] is Comma {
                    match parse_groups_at(ls, q + 1) {
                        Some((rest, r)) => Some((seq![g] + rest, r)),
                        None => None,
                    }
                } else {
                    None
                }
            },
        }
    }
}

#[via_fn]
proof fn parse_groups_at_decreases(ls: Seq<Lexeme>, p: int) {
    if 0 <= p {
        lemma_parse_group_bounds(ls, p);
    }
}

/// The `:: Name` continuations of a path from `q` on, as the text they
/// add.
pub open spec fn parse_path_rest_at(ls: Seq<Lexeme>, q: int) -> Option<(Seq<char>, int)>
    decreases ls.len() - q,
{
    if q < ls.len() && ls[q] is PathSep {
        if q + 1 < ls.len() && ls[q + 1] is Ident {
            match parse_path_rest_at(ls, q + 2) {
                Some((rest, r)) => Some(("::"@ + name_of(ls[q + 1]) + rest, r)),
                None => None,
            }
        } else {
            None
        }
    } else {
        Some((Seq::empty(), q))
    }
}

/// The type path at `p`, as its source text.
pub open spec fn parse_path_at(ls: Seq<Lexeme>, p: int) -> Option<(Seq<char>, int)> {
    if p < ls.len() && ls[p] is Ident {
        match parse_path_rest_at(ls, p + 1) {
            Some((rest, r)) => Some((name_of(ls[p]) + rest, r)),
            None => None,
        }
    } else {
        None
    }
}

/// A path ends strictly after where it starts, within bounds.
pub proof fn lemma_parse_path_bounds(ls: Seq<Lexeme>, p: int)
    requires
        0 <= p <= ls.len(),
    ensures
        match parse_path_rest_at(ls, p) {
            Some(v) => p <= v.1 <= ls.len(),
            None => true,
        },
        match parse_path_at(ls, p) {
            Some(v) => p < v.1 <= ls.len(),
            None => true,
        },
    decreases ls.len() - p,
{
    if p < ls.len() && ls[p] is PathSep && p + 1 < ls.len() && ls[p + 1] is Ident {
        lemma_parse_path_bounds(ls, p + 2);
    }
    if p < ls.len() && ls[p] is Ident {
        lemma_parse_path_bounds(ls, p + 1);
    }
}

/// The `, Name` continuations of a derive list from `q` on, up to and
/// past the closing parenthesis.
pub open spec fn parse_derive_rest_at(ls: Seq<Lexeme>, q: int) -> Option<(Seq<Seq<char>>, int)>
    decreases ls.len() - q,
{
    if q < ls.len() && ls[q] is Comma {
        if q + 1 < ls.len() && ls[q + 1] is Ident {
            match parse_derive_rest_at(ls, q + 2) {
                Some((rest, r)) => Some((seq![name_of(ls[q + 1])] + rest, r)),
                None => None,
            }
        } else {
            None
        }
    } else if q < ls.len() && ls[q] is RParen {
        Some((Seq::empty(), q + 1))
    } else {
        None
    }
}

/// A derive list rest ends strictly after where it starts, within bounds.
pub proof fn lemma_parse_derive_rest_bounds(ls: Seq<Lexeme>, q: int)
    requires
        0 <= q,
    ensures
        match parse_derive_rest_at(ls, q) {
            Some(v) => q < v.1 <= ls.len(),
            None => true,
        },
    decreases ls.len() - q,
{
    if q < ls.len() && ls[q] is Comma && q + 1 < ls.len() && ls[q + 1] is Ident {
        lemma_parse_derive_rest_bounds(ls, q + 2);
    }
}

/// The directives from `p` on, folded over the state collected so far; a
/// repeated directive of one kind parses to nothing.
pub open spec fn parse_directives_at(ls: Seq<Lexeme>, p: int, acc: DirectiveShape) -> Option<
    (DirectiveShape, int),
>
    decreases ls.len() - p,
    via parse_directives_at_decreases
{
    if 0 <= p && p < ls.len() && ls[p] is Ident {
        let w = name_of(ls[p]);
        if w == "pub"@ {
            if acc.seen_visibility {
                None
            } else {
                parse_directives_at(
                    ls,
                    p + 1,
                    DirectiveShape {
                        visibility: Visibility::Public,
                        seen_visibility: true,
                        ..acc
                    },
                )
            }
        } else if p + 1 < ls.len() && ls[p + 1] is LParen && w == "derive"@ {
            if acc.seen_derive {
                None
            } else if p + 2 < ls.len() && ls[p + 2] is Ident {
                match parse_derive_rest_at(ls, p + 3) {
                    Some((rest, r)) => parse_directives_at(
                        ls,
                        r,
                        DirectiveShape {
                            derives: seq![name_of(ls[p + 2])] + rest,
                            seen_derive: true,
                            ..acc
                        },
                    ),
                    None => None,
                }
            } else {
                None
            }
        } else if p + 1 < ls.len() && ls[p + 1] is LParen && w == "repr_c"@ {
            if acc.seen_repr_c {
                None
            } else if p + 2 < ls.len() && ls[p + 2] is Ident && (name_of(ls[p + 2]) == "true"@
                || name_of(ls[p + 2]) == "false"@) && p + 3 < ls.len() && ls[p + 3] is RParen {
                parse_directives_at(
                    ls,
                    p + 4,
                    DirectiveShape {
                        repr_c: name_of(ls[p + 2]) == "true"@,
                        seen_repr_c: true,
                        ..acc
                    },
                )
            } else {
                None
            }
        } else if p + 1 < ls.len() && ls[p + 1] is LParen && w == "input"@ {
            if acc.input_type is Some {
                None
            } else {
                match parse_path_at(ls, p + 2) {
                    Some((path, r)) => if r < ls.len() && ls[r] is RParen {
                        parse_directives_at(
                            ls,
                            r + 1,
                            DirectiveShape { input_type: Some(path), ..acc },
                        )
                    } else {
                        None
                    },
                    None => None,
                }
            }
        } else if p + 1 < ls.len() && ls[p + 1] is LParen && w == "state"@ {
            if acc.state_type is Some {
                None
            } else {
                match parse_path_at(ls, p + 2) {
                    Some((path, r)) => if r < ls.len() && ls[r] is RParen {
                        parse_directives_at(
                            ls,
                            r + 1,
                            DirectiveShape { state_type: Some(path), ..acc },
                        )
                    } else {
                        None
                    },
                    None => None,
                }
            }
        } else if p + 1 < ls.len() && ls[p + 1] is LParen && w == "output"@ {
            if acc.output_type is Some {
                None
            } else {
                match parse_path_at(ls, p + 2) {
                    Some((path, r)) => if r < ls.len() && ls[r] is RParen {
                        parse_directives_at(
                            ls,
                            r + 1,
                            DirectiveShape { output_type: Some(path), ..acc },
                        )
                    } else {
                        None
                    },
                    None => None,
                }
            }
        } else {
            Some((acc, p))
        }
    } else {
        Some((acc, p))
    }
}

#[via_fn]
proof fn parse_directives_at_decreases(ls: Seq<Lexeme>, p: int, acc: DirectiveShape) {
    if 0 <= p {
        lemma_parse_derive_rest_bounds(ls, p + 3);
    }
    if 0 <= p && p + 2 <= ls.len() {
        lemma_parse_path_bounds(ls, p + 2);
    }
}

/// The whole definition laid out in the lexemes from `p` to their end:
/// the directives, the `Name(InitialState)` header, and the groups.
pub open spec fn parse_def_at(ls: Seq<Lexeme>, p: int) -> Option<DefShape> {
    match parse_directives_at(ls, p, no_directives()) {
        None => None,
        Some((dirs, q)) => {
            if q + 3 < ls.len() && ls[q] is Ident && ls[q + 1] is LParen && ls[q + 2] is Ident
                && ls[q + 3] is RParen {
                match parse_groups_at(ls, q + 4) {
                    Some((gs, _)) => Some(
                        DefShape {
                            visibility: dirs.visibility,
                            name: name_of(ls[q]),
                            initial_state: name_of(ls[q + 2]),
                            groups: gs,
                            derives: dirs.derives,
                            repr_c: dirs.repr_c,
                            input_type: dirs.input_type,
                            state_type: dirs.state_type,
                            output_type: dirs.output_type,
                        },
                    ),
                    None => None,
                }
            } else {
                None
            }
        },
    }
}

/// A tokenized definition together with the parser's position in it. Each
/// token carries the character offset it started at, so errors can point
/// into the source text.
pub struct ParseStream {
    tokens: Vec<Token>,
    starts: Vec<usize>,
    text_len: usize,
    pos: usize,
}

impl ParseStream {
    /// The tokens of the stream.
    pub closed spec fn spec_tokens(&self) -> Seq<Token> {
        self.tokens@
    }

    /// The position of the next token to be consumed.
    pub closed spec fn spec_pos(&self) -> int {
        self.pos as int
    }

    /// The lexemes of the stream's tokens.
    pub open spec fn spec_lexemes(&self) -> Seq<Lexeme> {
        lexemes_of(self.spec_tokens())
    }

    /// The character offset each token starts at.
    pub closed spec fn spec_starts(&self) -> Seq<usize> {
        self.starts@
    }

    /// The length of the tokenized text, in characters.
    pub closed spec fn spec_text_len(&self) -> int {
        self.text_len as int
    }

    /// The character offset that an error at token position `p` points
    /// at: the start of that token, or the text length when the input
    /// ended too early.
    pub open spec fn offset_at(&self, p: int) -> int {
        if 0 <= p < self.spec_tokens().len() {
            self.spec_starts()[p] as int
        } else {
            self.spec_text_len()
        }
    }

    /// Well-formedness: the position is within bounds, every token has a
    /// start offset, and every identifier token holds a well-formed name.
    pub closed spec fn wf(&self) -> bool {
        &&& self.pos <= self.tokens@.len()
        &&& self.starts@.len() == self.tokens@.len()
        &&& forall|i: int| 0 <= i < self.tokens@.len() ==> token_wf(#[trigger] self.tokens@[i])
    }

    /// The character offset to report an error at: the start of the next
    /// token, or the text length when the input ended too early.
    fn error_position(&self) -> (r: usize)
        requires
            self.wf(),
        ensures
            r as int == self.offset_at(self.spec_pos()),
    {
        if self.pos < self.tokens.len() {
            self.starts[self.pos]
        } else {
            self.text_len
        }
    }

    /// A grammar error at the current position.
    fn grammar_error(&self) -> (r: CompileError)
        requires
            self.wf(),
        ensures
            r matches CompileError::GrammarError { position } && position as int == self.offset_at(
                self.spec_pos(),
            ),
    {
        CompileError::GrammarError { position: self.error_position() }
    }

    /// Whether every token has been consumed.
    fn at_end(&self) -> (r: bool)
        ensures
            r == (self.spec_pos() == self.spec_tokens().len()),
    {
        self.pos == self.tokens.len()
    }

    /// The name of the next token when it is an identifier.
    fn peek_ident(&self) -> (r: Option<String>)
        requires
            self.wf(),
        ensures
            match r {
                Some(s) => self.spec_pos() < self.spec_tokens().len() && self.spec_tokens()[
                    self.spec_pos()
                ] == Token::Ident(s) && wf_name(s@),
                None => self.spec_pos() >= self.spec_tokens().len() || !(self.spec_tokens()[
                    self.spec_pos()
                ] is Ident),
            },
    {
        if self.pos < self.tokens.len() {
            match &self.tokens[self.pos] {
                Token::Ident(s) => Some(s.clone()),
                _ => None,
            }
        } else {
            None
        }
    }

    /// Whether the next token is `(`.
    fn peek_lparen(&self) -> (r: bool)
        ensures
            r == (self.spec_pos() < self.spec_tokens().len() && self.spec_tokens()[self.spec_pos()]
                is LParen),
    {
        if self.pos < self.tokens.len() {
            match &self.tokens[self.pos] {
                Token::LParen => true,
                _ => false,
            }
        } else {
            false
        }
    }

    /// Whether the token after the next one is `(`.
    fn peek2_lparen(&self) -> (r: bool)
        ensures
            r == (self.spec_pos() + 1 < self.spec_tokens().len() && self.spec_tokens()[
                self.spec_pos() + 1
            ] is LParen),
    {
        if self.tokens.len() >= 2 && self.pos < self.tokens.len() - 1 {
            match &self.tokens[self.pos + 1] {
                Token::LParen => true,
                _ => false,
            }
        } else {
            false
        }
    }

    /// Whether the next token is `[`.
    fn peek_lbracket(&self) -> (r: bool)
        ensures
            r == (self.spec_pos() < self.spec_tokens().len() && self.spec_tokens()[self.spec_pos()]
                is LBracket),
    {
        if self.pos < self.tokens.len() {
            match &self.tokens[self.pos] {
                Token::LBracket => true,
                _ => false,
            }
        } else {
            false
        }
    }

    /// Whether the next token is `,`.
    fn peek_comma(&self) -> (r: bool)
        ensures
            r == (self.spec_pos() < self.spec_tokens().len() && self.spec_tokens()[self.spec_pos()]
                is Comma),
    {
        if self.pos < self.tokens.len() {
            match &self.tokens[self.pos] {
                Token::Comma => true,
                _ => false,
            }
        } else {
            false
        }
    }

    /// Whether the next token is `}`.
    fn peek_rbrace(&self) -> (r: bool)
        ensures
            r == (self.spec_pos() < self.spec_tokens().len() && self.spec_tokens()[self.spec_pos()]
                is RBrace),
    {
        if self.pos < self.tokens.len() {
            match &self.tokens[self.pos] {
                Token::RBrace => true,
                _ => false,
            }
        } else {
            false
        }
    }

    /// Whether the next token is `::`.
    fn peek_pathsep(&self) -> (r: bool)
        ensures
            r == (self.spec_pos() < self.spec_tokens().len() && self.spec_tokens()[self.spec_pos()]
                is PathSep),
    {
        if self.pos < self.tokens.len() {
            match &self.tokens[self.pos] {
                Token::PathSep => true,
                _ => false,
            }
        } else {
            false
        }
    }

    /// Consumes one token without looking at it.
    fn bump(&mut self)
        requires
            old(self).wf(),
            old(self).spec_pos() < old(self).spec_tokens().len(),
        ensures
            final(self).wf(),
            final(self).spec_tokens() == old(self).spec_tokens(),
            final(self).spec_starts() == old(self).spec_starts(),
            final(self).spec_text_len() == old(self).spec_text_len(),
            final(self).spec_pos() == old(self).spec_pos() + 1,
    {
        let n = self.tokens.len();
        assert(self.pos < n);
        self.pos = self.pos + 1;
    }

    /// Consumes the next token, which must be an identifier, and returns
    /// its name.
    fn take_ident(&mut self) -> (r: Result<String, CompileError>)
        requires
            old(self).wf(),
        ensures
            final(self).wf(),
            final(self).spec_tokens() == old(self).spec_tokens(),
            final(self).spec_starts() == old(self).spec_starts(),
            final(self).spec_text_len() == old(self).spec_text_len(),
            match r {
                Ok(s) => wf_name(s@) && final(self).spec_pos() == old(self).spec_pos() + 1
                    && old(self).spec_pos() < old(self).spec_tokens().len() && old(
                    self,
                ).spec_tokens()[old(self).spec_pos()] == Token::Ident(s),
                Err(e) => (e matches CompileError::GrammarError { position } && position as int == old(
                    self,
                ).offset_at(old(self).spec_pos())) && final(self).spec_pos() == old(
                    self,
                ).spec_pos()
                    && (old(self).spec_pos() >= old(self).spec_tokens().len() || !(old(
                    self,
                ).spec_tokens()[old(self).spec_pos()] is Ident)),
            },
    {
        if self.pos < self.tokens.len() {
            match &self.tokens[self.pos] {
                Token::Ident(s) => {
                    let name = s.clone();
                    self.pos = self.pos + 1;
                    Ok(name)
                },
                _ => Err(self.grammar_error()),
            }
        } else {
            Err(self.grammar_error())
        }
    }

    /// Consumes the next token, which must be `(`.
    fn expect_lparen(&mut self) -> (r: Result<(), CompileError>)
        requires
            old(self).wf(),
        ensures
            final(self).wf(),
            final(self).spec_tokens() == old(self).spec_tokens(),
            final(self).spec_starts() == old(self).spec_starts(),
            final(self).spec_text_len() == old(self).spec_text_len(),
            match r {
                Ok(_) => final(self).spec_pos() == old(self).spec_pos() + 1 && old(
                    self,
                ).spec_pos() < old(self).spec_tokens().len() && old(self).spec_tokens()[old(
                    self,
                ).spec_pos()] is LParen,
                Err(e) => (e matches CompileError::GrammarError { position } && position as int == old(
                    self,
                ).offset_at(old(self).spec_pos())) && final(self).spec_pos() == old(
                    self,
                ).spec_pos()
                    && (old(self).spec_pos() >= old(self).spec_tokens().len() || !(old(
                    self,
                ).spec_tokens()[old(self).spec_pos()] is LParen)),
            },
    {
        if self.pos < self.tokens.len() {
            match &self.tokens[self.pos] {
                Token::LParen => {
                    self.pos = self.pos + 1;
                    Ok(())
                },
                _ => Err(self.grammar_error()),
            }
        } else {
            Err(self.grammar_error())
        }
    }

    /// Consumes the next token, which must be `)`.
    fn expect_rparen(&mut self) -> (r: Result<(), CompileError>)
        requires
            old(self).wf(),
        ensures
            final(self).wf(),
            final(self).spec_tokens() == old(self).spec_tokens(),
            final(self).spec_starts() == old(self).spec_starts(),
            final(self).spec_text_len() == old(self).spec_text_len(),
            match r {
                Ok(_) => final(self).spec_pos() == old(self).spec_pos() + 1 && old(
                    self,
                ).spec_pos() < old(self).spec_tokens().len() && old(self).spec_tokens()[old(
                    self,
                ).spec_pos()] is RParen,
                Err(e) => (e matches CompileError::GrammarError { position } && position as int == old(
                    self,
                ).offset_at(old(self).spec_pos())) && final(self).spec_pos() == old(
                    self,
                ).spec_pos()
                    && (old(self).spec_pos() >= old(self).spec_tokens().len() || !(old(
                    self,
                ).spec_tokens()[old(self).spec_pos()] is RParen)),
            },
    {
        if self.pos < self.tokens.len() {
            match &self.tokens[self.pos] {
                Token::RParen => {
                    self.pos = self.pos + 1;
                    Ok(())
                },
                _ => Err(self.grammar_error()),
            }
        } else {
            Err(self.grammar_error())
        }
    }

    /// Consumes the next token, which must be `{`.
    fn expect_lbrace(&mut self) -> (r: Result<(), CompileError>)
        requires
            old(self).wf(),
        ensures
            final(self).wf(),
            final(self).spec_tokens() == old(self).spec_tokens(),
            final(self).spec_starts() == old(self).spec_starts(),
            final(self).spec_text_len() == old(self).spec_text_len(),
            match r {
                Ok(_) => final(self).spec_pos() == old(self).spec_pos() + 1 && old(
                    self,
                ).spec_pos() < old(self).spec_tokens().len() && old(self).spec_tokens()[old(
                    self,
                ).spec_pos()] is LBrace,
                Err(e) => (e matches CompileError::GrammarError { position } && position as int == old(
                    self,
                ).offset_at(old(self).spec_pos())) && final(self).spec_pos() == old(
                    self,
                ).spec_pos()
                    && (old(self).spec_pos() >= old(self).spec_tokens().len() || !(old(
                    self,
                ).spec_tokens()[old(self).spec_pos()] is LBrace)),
            },
    {
        if self.pos < self.tokens.len() {
            match &self.tokens[self.pos] {
                Token::LBrace => {
                    self.pos = self.pos + 1;
                    Ok(())
                },
                _ => Err(self.grammar_error()),
            }
        } else {
            Err(self.grammar_error())
        }
    }

    /// Consumes the next token, which must be `]`.
    fn expect_rbracket(&mut self) -> (r: Result<(), CompileError>)
        requires
            old(self).wf(),
        ensures
            final(self).wf(),
            final(self).spec_tokens() == old(self).spec_tokens(),
            final(self).spec_starts() == old(self).spec_starts(),
            final(self).spec_text_len() == old(self).spec_text_len(),
            match r {
                Ok(_) => final(self).spec_pos() == old(self).spec_pos() + 1 && old(
                    self,
                ).spec_pos() < old(self).spec_tokens().len() && old(self).spec_tokens()[old(
                    self,
                ).spec_pos()] is RBracket,
                Err(e) => (e matches CompileError::GrammarError { position } && position as int == old(
                    self,
                ).offset_at(old(self).spec_pos())) && final(self).spec_pos() == old(
                    self,
                ).spec_pos()
                    && (old(self).spec_pos() >= old(self).spec_tokens().len() || !(old(
                    self,
                ).spec_tokens()[old(self).spec_pos()] is RBracket)),
            },
    {
        if self.pos < self.tokens.len() {
            match &self.tokens[self.pos] {
                Token::RBracket => {
                    self.pos = self.pos + 1;
                    Ok(())
                },
                _ => Err(self.grammar_error()),
            }
        } else {
            Err(self.grammar_error())
        }
    }

    /// Consumes the next token, which must be `=>`.
    fn expect_arrow(&mut self) -> (r: Result<(), CompileError>)
        requires
            old(self).wf(),
        ensures
            final(self).wf(),
            final(self).spec_tokens() == old(self).spec_tokens(),
            final(self).spec_starts() == old(self).spec_starts(),
            final(self).spec_text_len() == old(self).spec_text_len(),
            match r {
                Ok(_) => final(self).spec_pos() == old(self).spec_pos() + 1 && old(
                    self,
                ).spec_pos() < old(self).spec_tokens().len() && old(self).spec_tokens()[old(
                    self,
                ).spec_pos()] is Arrow,
                Err(e) => (e matches CompileError::GrammarError { position } && position as int == old(
                    self,
                ).offset_at(old(self).spec_pos())) && final(self).spec_pos() == old(
                    self,
                ).spec_pos()
                    && (old(self).spec_pos() >= old(self).spec_tokens().len() || !(old(
                    self,
                ).spec_tokens()[old(self).spec_pos()] is Arrow)),
            },
    {
        if self.pos < self.tokens.len() {
            match &self.tokens[self.pos] {
                Token::Arrow => {
                    self.pos = self.pos + 1;
                    Ok(())
                },
                _ => Err(self.grammar_error()),
            }
        } else {
            Err(self.grammar_error())
        }
    }

    /// Consumes the next token, which must be `,`.
    fn expect_comma(&mut self) -> (r: Result<(), CompileError>)
        requires
            old(self).wf(),
        ensures
            final(self).wf(),
            final(self).spec_tokens() == old(self).spec_tokens(),
            final(self).spec_starts() == old(self).spec_starts(),
            final(self).spec_text_len() == old(self).spec_text_len(),
            match r {
                Ok(_) => final(self).spec_pos() == old(self).spec_pos() + 1 && old(
                    self,
                ).spec_pos() < old(self).spec_tokens().len() && old(self).spec_tokens()[old(
                    self,
                ).spec_pos()] is Comma,
                Err(e) => (e matches CompileError::GrammarError { position } && position as int == old(
                    self,
                ).offset_at(old(self).spec_pos())) && final(self).spec_pos() == old(
                    self,
                ).spec_pos()
                    && (old(self).spec_pos() >= old(self).spec_tokens().len() || !(old(
                    self,
                ).spec_tokens()[old(self).spec_pos()] is Comma)),
            },
    {
        if self.pos < self.tokens.len() {
            match &self.tokens[self.pos] {
                Token::Comma => {
                    self.pos = self.pos + 1;
                    Ok(())
                },
                _ => Err(self.grammar_error()),
            }
        } else {
            Err(self.grammar_error())
        }
    }
}

/// Whether `c` is blank space between tokens.
fn is_space(c: char) -> (r: bool)
    ensures
        r == (c == ' ' || c == '\t' || c == '\n' || c == '\r'),
{
    c == ' ' || c == '\t' || c == '\n' || c == '\r'
}

/// Whether `c` may start an identifier.
fn is_ident_start_exec(c: char) -> (r: bool)
    ensures
        r == is_ident_start(c),
{
    let u = c as u32;
    (u >= 97 && u <= 122) || (u >= 65 && u <= 90) || c == '_'
}

/// Whether `c` may continue an identifier.
fn is_ident_char_exec(c: char) -> (r: bool)
    ensures
        r == is_ident_char(c),
{
    let u = c as u32;
    is_ident_start_exec(c) || (u >= 48 && u <= 57)
}

/// Splits the DSL text into tokens. Fails with a grammar error carrying
/// the character offset of the first character that fits no token.
pub fn tokenize(text: &str) -> (r: Result<ParseStream, CompileError>)
    ensures
        match r {
            Ok(s) => s.wf() && s.spec_pos() == 0 && lex_at(text@, 0) == Some(s.spec_lexemes())
                && lex_starts_at(text@, 0) == Some(starts_of(s.spec_starts()))
                && s.spec_text_len() == text@.len() && lex_failure_at(text@, 0) is None,
            Err(e) => (e matches CompileError::GrammarError { position } && lex_failure_at(
                text@,
                0,
            ) == Some(position as int)) && lex_at(text@, 0) is None,
        },
{
    let n = text.unicode_len();
    let mut tokens: Vec<Token> = Vec::new();
    let mut starts: Vec<usize> = Vec::new();
    let mut i: usize = 0;
    proof {
        match lex_at(text@, 0) {
            Some(rest) => {
                assert(lexemes_of(tokens@) + rest =~= rest);
            },
            None => {},
        }
        match lex_starts_at(text@, 0) {
            Some(rest) => {
                assert(starts_of(starts@) + rest =~= rest);
            },
            None => {},
        }
    }
    while i < n
        invariant
            n == text@.len(),
            i <= n,
            starts@.len() == tokens@.len(),
            forall|k: int| 0 <= k < tokens@.len() ==> token_wf(#[trigger] tokens@[k]),
            match lex_at(text@, i as int) {
                Some(rest) => lex_at(text@, 0) == Some(lexemes_of(tokens@) + rest),
                None => lex_at(text@, 0) is None,
            },
            match lex_starts_at(text@, i as int) {
                Some(rest) => lex_starts_at(text@, 0) == Some(starts_of(starts@) + rest),
                None => lex_starts_at(text@, 0) is None,
            },
            lex_failure_at(text@, 0) == lex_failure_at(text@, i as int),
        decreases n - i,
    {
        let c = text.get_char(i);
        let ghost prev = tokens@;
        let ghost prevs = starts@;
        if is_space(c) {
            proof {
                assert(lex_at(text@, i as int) == lex_at(text@, i + 1));
                assert(lex_starts_at(text@, i as int) == lex_starts_at(text@, i + 1));
                assert(lex_failure_at(text@, i as int) == lex_failure_at(text@, i + 1));
            }
            i = i + 1;
        } else if is_ident_start_exec(c) {
            let start = i;
            let mut j = i + 1;
            while j < n && is_ident_char_exec(text.get_char(j))
                invariant
                    n == text@.len(),
                    i < j <= n,
                    is_ident_start(text@[i as int]),
                    forall|k: int| i <= k < j ==> is_ident_char(#[trigger] text@[k]),
                decreases n - j,
            {
                j = j + 1;
            }
            let name = text.substring_char(start, j).to_owned();
            proof {
                assert(name@ == text@.subrange(i as int, j as int));
                assert(name@[0] == text@[i as int]);
                assert forall|k: int| 0 <= k < name@.len() implies is_ident_char(
                    #[trigger] name@[k],
                ) by {
                    assert(name@[k] == text@[i + k]);
                }
                assert(wf_name(name@));
                lemma_ident_end_run(text@, i as int, j as int);
            }
            tokens.push(Token::Ident(name));
            starts.push(start);
            proof {
                lemma_lex_cons(text@, i as int, j as int, prev, Token::Ident(name));
                lemma_lex_starts_cons(text@, i as int, j as int, prevs, start);
                assert(lex_failure_at(text@, i as int) == lex_failure_at(text@, j as int));
            }
            i = j;
        } else if c == '(' {
            tokens.push(Token::LParen);
            starts.push(i);
            proof {
                lemma_lex_cons(text@, i as int, i + 1, prev, Token::LParen);
                lemma_lex_starts_cons(text@, i as int, i + 1, prevs, i);
                assert(lex_failure_at(text@, i as int) == lex_failure_at(text@, i + 1));
            }
            i = i + 1;
        } else if c == ')' {
            tokens.push(Token::RParen);
            starts.push(i);
            proof {
                lemma_lex_cons(text@, i as int, i + 1, prev, Token::RParen);
                lemma_lex_starts_cons(text@, i as int, i + 1, prevs, i);
                assert(lex_failure_at(text@, i as int) == lex_failure_at(text@, i + 1));
            }
            i = i + 1;
        } else if c == '{' {
            tokens.push(Token::LBrace);
            starts.push(i);
            proof {
                lemma_lex_cons(text@, i as int, i + 1, prev, Token::LBrace);
                lemma_lex_starts_cons(text@, i as int, i + 1, prevs, i);
                assert(lex_failure_at(text@, i as int) == lex_failure_at(text@, i + 1));
            }
            i = i + 1;
        } else if c == '}' {
            tokens.push(Token::RBrace);
            starts.push(i);
            proof {
                lemma_lex_cons(text@, i as int, i + 1, prev, Token::RBrace);
                lemma_lex_starts_cons(text@, i as int, i + 1, prevs, i);
                assert(lex_failure_at(text@, i as int) == lex_failure_at(text@, i + 1));
            }
            i = i + 1;
        } else if c == '[' {
            tokens.push(Token::LBracket);
            starts.push(i);
            proof {
                lemma_lex_cons(text@, i as int, i + 1, prev, Token::LBracket);
                lemma_lex_starts_cons(text@, i as int, i + 1, prevs, i);
                assert(lex_failure_at(text@, i as int) == lex_failure_at(text@, i + 1));
            }
            i = i + 1;
        } else if c == ']' {
            tokens.push(Token::RBracket);
            starts.push(i);
            proof {
                lemma_lex_cons(text@, i as int, i + 1, prev, Token::RBracket);
                lemma_lex_starts_cons(text@, i as int, i + 1, prevs, i);
                assert(lex_failure_at(text@, i as int) == lex_failure_at(text@, i + 1));
            }
            i = i + 1;
        } else if c == ',' {
            tokens.push(Token::Comma);
            starts.push(i);
            proof {
                lemma_lex_cons(text@, i as int, i + 1, prev, Token::Comma);
                lemma_lex_starts_cons(text@, i as int, i + 1, prevs, i);
                assert(lex_failure_at(text@, i as int) == lex_failure_at(text@, i + 1));
            }
            i = i + 1;
        } else if c == '=' {
            if i + 1 < n && text.get_char(i + 1) == '>' {
                tokens.push(Token::Arrow);
                starts.push(i);
                proof {
                    lemma_lex_cons(text@, i as int, i + 2, prev, Token::Arrow);
                    lemma_lex_starts_cons(text@, i as int, i + 2, prevs, i);
                    assert(lex_failure_at(text@, i as int) == lex_failure_at(text@, i + 2));
                }
                i = i + 2;
            } else {
                proof {
                    assert(lex_at(text@, i as int) is None);
                    assert(lex_failure_at(text@, i as int) == Some(i as int));
                }
                return Err(CompileError::GrammarError { position: i });
            }
        } else if c == ':' {
            if i + 1 < n && text.get_char(i + 1) == ':' {
                tokens.push(Token::PathSep);
                starts.push(i);
                proof {
                    lemma_lex_cons(text@, i as int, i + 2, prev, Token::PathSep);
                    lemma_lex_starts_cons(text@, i as int, i + 2, prevs, i);
                    assert(lex_failure_at(text@, i as int) == lex_failure_at(text@, i + 2));
                }
                i = i + 2;
            } else {
                proof {
                    assert(lex_at(text@, i as int) is None);
                    assert(lex_failure_at(text@, i as int) == Some(i as int));
                }
                return Err(CompileError::GrammarError { position: i });
            }
        } else {
            proof {
                assert(lex_at(text@, i as int) is None);
                assert(lex_failure_at(text@, i as int) == Some(i as int));
            }
            return Err(CompileError::GrammarError { position: i });
        }
    }
    proof {
        assert(lex_at(text@, n as int) == Some(Seq::<Lexeme>::empty()));
        assert(lexemes_of(tokens@) + Seq::<Lexeme>::empty() =~= lexemes_of(tokens@));
        assert(lex_starts_at(text@, n as int) == Some(Seq::<int>::empty()));
        assert(starts_of(starts@) + Seq::<int>::empty() =~= starts_of(starts@));
        assert(lex_failure_at(text@, n as int) is None);
    }
    Ok(ParseStream { tokens, starts, text_len: n, pos: 0 })
}

/// Whether `s` spells the keyword `kw`.
fn is_kw(s: &String, kw: &str) -> (r: bool)
    ensures
        r == (s@ == kw@),
{
    let k = String::from_str(kw);
    *s == k
}

impl Output {
    /// Parses the optional output of a transition: `[Name]`, or nothing,
    /// in which case no token is consumed.
    pub fn parse(stream: &mut ParseStream) -> (r: Result<Output, CompileError>)
        requires
            old(stream).wf(),
        ensures
            final(stream).wf(),
            final(stream).spec_tokens() == old(stream).spec_tokens(),
            final(stream).spec_starts() == old(stream).spec_starts(),
            final(stream).spec_text_len() == old(stream).spec_text_len(),
            final(stream).spec_pos() >= old(stream).spec_pos(),
            match r {
                Ok(o) => (match parse_output_at(
                    old(stream).spec_lexemes(),
                    old(stream).spec_pos(),
                ) {
                    Some(v) => opt_name_matches(o.0, v.0) && final(stream).spec_pos() == v.1,
                    None => false,
                }) && (match o.0 {
                    Some(s) => wf_name(s@),
                    None => true,
                }),
                Err(e) => (e matches CompileError::GrammarError { position } && position as int
                    == final(stream).offset_at(final(stream).spec_pos())) && parse_output_at(
                    old(stream).spec_lexemes(),
                    old(stream).spec_pos(),
                ) is None,
            },
    {
        if stream.peek_lbracket() {
            stream.bump();
            let name = stream.take_ident()?;
            stream.expect_rbracket()?;
            Ok(Output(Some(name)))
        } else {
            Ok(Output(None))
        }
    }
}

impl TransitionEntry {
    /// Parses one transition entry of the compact form:
    /// `Input => FinalState [Output]?`.
    pub fn parse(stream: &mut ParseStream) -> (r: Result<TransitionEntry, CompileError>)
        requires
            old(stream).wf(),
        ensures
            final(stream).wf(),
            final(stream).spec_tokens() == old(stream).spec_tokens(),
            final(stream).spec_starts() == old(stream).spec_starts(),
            final(stream).spec_text_len() == old(stream).spec_text_len(),
            final(stream).spec_pos() >= old(stream).spec_pos(),
            match r {
                Ok(e) => wf_entry(e) && final(stream).spec_pos() > old(stream).spec_pos() && (
                match parse_entry_at(old(stream).spec_lexemes(), old(stream).spec_pos()) {
                    Some(v) => entry_matches(e, v.0) && final(stream).spec_pos() == v.1,
                    None => false,
                }),
                Err(e) => (e matches CompileError::GrammarError { position } && position as int
                    == final(stream).offset_at(final(stream).spec_pos())) && parse_entry_at(
                    old(stream).spec_lexemes(),
                    old(stream).spec_pos(),
                ) is None,
            },
    {
        let input_value = stream.take_ident()?;
        stream.expect_arrow()?;
        let final_state = stream.take_ident()?;
        let output = Output::parse(stream)?.into_option();
        Ok(TransitionEntry { input_value, final_state, output })
    }
}

impl TransitionDef {
    /// Parses one transition group, in either of the two surface forms:
    /// the simple form `InitialState(Input) => FinalState [Output]?`, or
    /// the compact form `InitialState => { Input => FinalState [Output]?,
    /// ... }`. A compact block with zero entries fails with
    /// [`CompileError::EmptyCompactBlockError`] naming the initial state.
    pub fn parse(stream: &mut ParseStream) -> (r: Result<TransitionDef, CompileError>)
        requires
            old(stream).wf(),
        ensures
            final(stream).wf(),
            final(stream).spec_tokens() == old(stream).spec_tokens(),
            final(stream).spec_starts() == old(stream).spec_starts(),
            final(stream).spec_text_len() == old(stream).spec_text_len(),
            final(stream).spec_pos() >= old(stream).spec_pos(),
            match r {
                Ok(g) => wf_group(g) && final(stream).spec_pos() > old(stream).spec_pos() && (
                match parse_group_at(old(stream).spec_lexemes(), old(stream).spec_pos()) {
                    Some(v) => group_matches(g, v.0) && final(stream).spec_pos() == v.1,
                    None => false,
                }),
                Err(e) => parse_group_at(old(stream).spec_lexemes(), old(stream).spec_pos())
                    is None && (match e {
                    CompileError::GrammarError { position } => !empty_block_at(
                        old(stream).spec_lexemes(),
                        old(stream).spec_pos(),
                    ) && position as int == final(stream).offset_at(final(stream).spec_pos()),
                    CompileError::EmptyCompactBlockError { initial_state } => old(
                        stream,
                    ).spec_pos() < old(stream).spec_tokens().len() && old(stream).spec_tokens()[
                        old(stream).spec_pos()
                    ] == Token::Ident(initial_state) && empty_block_at(
                        old(stream).spec_lexemes(),
                        old(stream).spec_pos(),
                    ),
                    _ => false,
                }),
            },
            empty_block_at(old(stream).spec_lexemes(), old(stream).spec_pos()) ==> (match r {
                Err(CompileError::EmptyCompactBlockError { .. }) => true,
                _ => false,
            }),
    {
        let ghost ls0 = old(stream).spec_lexemes();
        let ghost p0 = old(stream).spec_pos();
        let initial_state = stream.take_ident()?;
        if stream.peek_lparen() {
            stream.bump();
            let input_value = stream.take_ident()?;
            stream.expect_rparen()?;
            stream.expect_arrow()?;
            let final_state = stream.take_ident()?;
            let output = Output::parse(stream)?.into_option();
            let mut transitions: Vec<TransitionEntry> = Vec::new();
            transitions.push(TransitionEntry { input_value, final_state, output });
            Ok(TransitionDef { initial_state, transitions })
        } else {
            stream.expect_arrow()?;
            stream.expect_lbrace()?;
            if stream.peek_rbrace() {
                return Err(CompileError::EmptyCompactBlockError { initial_state });
            }
            let mut transitions: Vec<TransitionEntry> = Vec::new();
            let mut done = false;
            proof {
                assert(ls0[p0] is Ident);
                assert(!(ls0[p0 + 1] is LParen));
                assert(ls0[p0 + 1] is Arrow);
                assert(ls0[p0 + 2] is LBrace);
                match parse_entries_at(ls0, p0 + 3) {
                    Some(v) => {
                        assert(entries_shapes(transitions@) + v.0 =~= v.0);
                    },
                    None => {},
                }
            }
            while !done
                invariant
                    stream.wf(),
                    stream.spec_tokens() == old(stream).spec_tokens(),
                    stream.spec_starts() == old(stream).spec_starts(),
                    stream.spec_text_len() == old(stream).spec_text_len(),
                    stream.spec_pos() > old(stream).spec_pos(),
                    ls0 == old(stream).spec_lexemes(),
                    p0 == old(stream).spec_pos(),
                    0 <= p0 && p0 + 2 < ls0.len(),
                    ls0[p0] is Ident,
                    !(ls0[p0 + 1] is LParen),
                    ls0[p0 + 1] is Arrow,
                    ls0[p0 + 2] is LBrace,
                    !(p0 + 3 < ls0.len() && ls0[p0 + 3] is RBrace),
                    forall|i: int| 0 <= i < transitions@.len() ==> wf_entry(
                        #[trigger] transitions@[i],
                    ),
                    done ==> transitions@.len() >= 1,
                    !done ==> (match parse_entries_at(ls0, stream.spec_pos()) {
                        Some(v) => parse_entries_at(ls0, p0 + 3) == Some(
                            (entries_shapes(transitions@) + v.0, v.1),
                        ),
                        None => parse_entries_at(ls0, p0 + 3) is None,
                    }),
                    done ==> parse_entries_at(ls0, p0 + 3) == Some(
                        (entries_shapes(transitions@), stream.spec_pos()),
                    ),
                decreases stream.spec_tokens().len() - stream.spec_pos() + (if done {
                    0int
                } else {
                    1int
                }),
            {
                let ghost q = stream.spec_pos();
                let ghost prev = transitions@;
                let entry = TransitionEntry::parse(stream)?;
                transitions.push(entry);
                proof {
                    let ve = parse_entry_at(ls0, q).unwrap().0;
                    assert(ve == entry_shape(entry));
                    assert(entries_shapes(transitions@) =~= entries_shapes(prev) + seq![
                        entry_shape(entry),
                    ]);
                }
                if stream.peek_rbrace() {
                    stream.bump();
                    done = true;
                    proof {
                        assert(entries_shapes(prev) + seq![entry_shape(entry)] =~= entries_shapes(
                            transitions@,
                        ));
                    }
                } else {
                    stream.expect_comma()?;
                    if stream.peek_rbrace() {
                        stream.bump();
                        done = true;
                    } else {
                        proof {
                            match parse_entries_at(ls0, stream.spec_pos()) {
                                Some(v) => {
                                    assert(entries_shapes(prev) + (seq![entry_shape(entry)] + v.0)
                                        =~= entries_shapes(transitions@) + v.0);
                                },
                                None => {},
                            }
                        }
                    }
                }
            }
            Ok(TransitionDef { initial_state, transitions })
        }
    }
}

/// Parses a type path: `Name :: ... :: Name`, kept as its source text.
fn parse_path(stream: &mut ParseStream) -> (r: Result<String, CompileError>)
    requires
        old(stream).wf(),
    ensures
        final(stream).wf(),
        final(stream).spec_tokens() == old(stream).spec_tokens(),
        final(stream).spec_starts() == old(stream).spec_starts(),
        final(stream).spec_text_len() == old(stream).spec_text_len(),
        final(stream).spec_pos() >= old(stream).spec_pos(),
        match r {
            Ok(p) => p@.len() > 0 && final(stream).spec_pos() > old(stream).spec_pos() && (
            match parse_path_at(old(stream).spec_lexemes(), old(stream).spec_pos()) {
                Some(v) => p@ == v.0 && final(stream).spec_pos() == v.1,
                None => false,
            }),
            Err(e) => (e matches CompileError::GrammarError { position } && position as int
                == final(stream).offset_at(final(stream).spec_pos())) && parse_path_at(
                old(stream).spec_lexemes(),
                old(stream).spec_pos(),
            ) is None,
        },
{
    let ghost ls0 = old(stream).spec_lexemes();
    let ghost p0 = old(stream).spec_pos();
    let mut path = stream.take_ident()?;
    while stream.peek_pathsep()
        invariant
            stream.wf(),
            stream.spec_tokens() == old(stream).spec_tokens(),
                    stream.spec_starts() == old(stream).spec_starts(),
                    stream.spec_text_len() == old(stream).spec_text_len(),
            stream.spec_pos() > old(stream).spec_pos(),
            ls0 == old(stream).spec_lexemes(),
            p0 == old(stream).spec_pos(),
            path@.len() > 0,
            match parse_path_rest_at(ls0, stream.spec_pos()) {
                Some(v) => parse_path_at(ls0, p0) == Some((path@ + v.0, v.1)),
                None => parse_path_at(ls0, p0) is None,
            },
        decreases stream.spec_tokens().len() - stream.spec_pos(),
    {
        let ghost q = stream.spec_pos();
        let ghost prev = path@;
        stream.bump();
        let segment = stream.take_ident()?;
        path.append("::");
        path.append(segment.as_str());
        proof {
            match parse_path_rest_at(ls0, stream.spec_pos()) {
                Some(v) => {
                    assert(prev + ("::"@ + segment@ + v.0) =~= path@ + v.0);
                },
                None => {},
            }
        }
    }
    proof {
        assert(path@ + Seq::<char>::empty() =~= path@);
    }
    Ok(path)
}

impl StateMachineDef {
    /// Parses a whole state machine definition: the optional leading
    /// directives, the `Name(InitialState)` header, and the
    /// comma-separated transition groups, consuming the entire stream.
    #[verifier::rlimit(100)]
    pub fn parse(stream: &mut ParseStream) -> (r: Result<StateMachineDef, CompileError>)
        requires
            old(stream).wf(),
        ensures
            final(stream).wf(),
            final(stream).spec_tokens() == old(stream).spec_tokens(),
            final(stream).spec_starts() == old(stream).spec_starts(),
            final(stream).spec_text_len() == old(stream).spec_text_len(),
            final(stream).spec_pos() >= old(stream).spec_pos(),
            match r {
                Ok(d) => wf_def(d) && final(stream).spec_pos() == final(stream).spec_tokens().len()
                    && (match parse_def_at(old(stream).spec_lexemes(), old(stream).spec_pos()) {
                    Some(v) => def_matches(d, v),
                    None => false,
                }),
                Err(e) => (e is GrammarError || e is EmptyCompactBlockError) && parse_def_at(
                    old(stream).spec_lexemes(),
                    old(stream).spec_pos(),
                ) is None && (match e {
                    CompileError::EmptyCompactBlockError { initial_state } => exists|k: int|
                        empty_block_at(old(stream).spec_lexemes(), k) && old(
                            stream,
                        ).spec_lexemes()[k] == Lexeme::Ident(initial_state@),
                    CompileError::GrammarError { position } => position as int
                        == final(stream).offset_at(final(stream).spec_pos()),
                    _ => true,
                }),
            },
    {
        let ghost ls0 = old(stream).spec_lexemes();
        let ghost p0 = old(stream).spec_pos();
        let mut visibility = Visibility::Private;
        let mut seen_visibility = false;
        let mut derives: Vec<String> = Vec::new();
        let mut seen_derive = false;
        let mut repr_c = false;
        let mut seen_repr_c = false;
        let mut input_type: Option<String> = None;
        let mut state_type: Option<String> = None;
        let mut output_type: Option<String> = None;
        let mut scanning = true;
        proof {
            assert(names_shapes(derives@) =~= Seq::<Seq<char>>::empty());
            assert(dir_shape(
                visibility,
                seen_visibility,
                derives@,
                seen_derive,
                repr_c,
                seen_repr_c,
                input_type,
                state_type,
                output_type,
            ) == no_directives());
        }
        while scanning
            invariant
                stream.wf(),
                stream.spec_tokens() == old(stream).spec_tokens(),
                    stream.spec_starts() == old(stream).spec_starts(),
                    stream.spec_text_len() == old(stream).spec_text_len(),
                stream.spec_pos() >= old(stream).spec_pos(),
                ls0 == old(stream).spec_lexemes(),
                p0 == old(stream).spec_pos(),
                forall|i: int| 0 <= i < derives@.len() ==> wf_name(#[trigger] derives@[i]@),
                seen_derive == false ==> derives@.len() == 0,
                match input_type {
                    Some(p) => p@.len() > 0,
                    None => true,
                },
                match state_type {
                    Some(p) => p@.len() > 0,
                    None => true,
                },
                match output_type {
                    Some(p) => p@.len() > 0,
                    None => true,
                },
                scanning ==> parse_directives_at(ls0, p0, no_directives())
                    == parse_directives_at(
                    ls0,
                    stream.spec_pos(),
                    dir_shape(
                        visibility,
                        seen_visibility,
                        derives@,
                        seen_derive,
                        repr_c,
                        seen_repr_c,
                        input_type,
                        state_type,
                        output_type,
                    ),
                ),
                !scanning ==> parse_directives_at(ls0, p0, no_directives()) == Some(
                    (
                        dir_shape(
                            visibility,
                            seen_visibility,
                            derives@,
                            seen_derive,
                            repr_c,
                            seen_repr_c,
                            input_type,
                            state_type,
                            output_type,
                        ),
                        stream.spec_pos(),
                    ),
                ),
            decreases stream.spec_tokens().len() - stream.spec_pos(), (if scanning {
                1int
            } else {
                0int
            }),
        {
            let ghost q0 = stream.spec_pos();
            let ghost cur0 = dir_shape(
                visibility,
                seen_visibility,
                derives@,
                seen_derive,
                repr_c,
                seen_repr_c,
                input_type,
                state_type,
                output_type,
            );
            match stream.peek_ident() {
                None => {
                    scanning = false;
                },
                Some(word) => {
                    if is_kw(&word, "pub") {
                        if seen_visibility {
                            proof {
                                assert(parse_directives_at(ls0, q0, cur0) is None);
                            }
                            return Err(stream.grammar_error());
                        }
                        seen_visibility = true;
                        visibility = Visibility::Public;
                        stream.bump();
                        proof {
                            assert(parse_directives_at(ls0, q0, cur0) == parse_directives_at(
                                ls0,
                                q0 + 1,
                                dir_shape(
                                    visibility,
                                    seen_visibility,
                                    derives@,
                                    seen_derive,
                                    repr_c,
                                    seen_repr_c,
                                    input_type,
                                    state_type,
                                    output_type,
                                ),
                            ));
                        }
                    } else if stream.peek2_lparen() && is_kw(&word, "derive") {
                        if seen_derive {
                            proof {
                                assert(parse_directives_at(ls0, q0, cur0) is None);
                            }
                            return Err(stream.grammar_error());
                        }
                        seen_derive = true;
                        stream.bump();
                        stream.expect_lparen()?;
                        let first = stream.take_ident()?;
                        let ghost first_name = first@;
                        derives.push(first);
                        proof {
                            assert(derives@.drop_first() =~= Seq::<String>::empty());
                            assert(names_shapes(derives@.drop_first())
                                =~= Seq::<Seq<char>>::empty());
                            assert(cur0.derives =~= Seq::<Seq<char>>::empty());
                            assert(cur0 == dir_shape(
                                visibility,
                                seen_visibility,
                                Seq::<String>::empty(),
                                false,
                                repr_c,
                                seen_repr_c,
                                input_type,
                                state_type,
                                output_type,
                            )) by {
                                assert(names_shapes(Seq::<String>::empty())
                                    =~= Seq::<Seq<char>>::empty());
                            }
                        }
                        while stream.peek_comma()
                            invariant
                                stream.wf(),
                                stream.spec_tokens() == old(stream).spec_tokens(),
                    stream.spec_starts() == old(stream).spec_starts(),
                    stream.spec_text_len() == old(stream).spec_text_len(),
                                stream.spec_pos() >= old(stream).spec_pos(),
                                stream.spec_pos() > q0,
                                ls0 == old(stream).spec_lexemes(),
                                p0 == old(stream).spec_pos(),
                                forall|i: int| 0 <= i < derives@.len() ==> wf_name(
                                    #[trigger] derives@[i]@,
                                ),
                                derives@.len() >= 1,
                                derives@[0]@ == first_name,
                                0 <= q0 && q0 + 2 < ls0.len(),
                                ls0[q0] is Ident && name_of(ls0[q0]) == "derive"@,
                                ls0[q0 + 1] is LParen,
                                ls0[q0 + 2] == Lexeme::Ident(first_name),
                                cur0.seen_derive == false,
                                cur0 == dir_shape(
                                    visibility,
                                    seen_visibility,
                                    Seq::<String>::empty(),
                                    false,
                                    repr_c,
                                    seen_repr_c,
                                    input_type,
                                    state_type,
                                    output_type,
                                ),
                                parse_directives_at(ls0, p0, no_directives())
                                    == parse_directives_at(ls0, q0, cur0),
                                match parse_derive_rest_at(ls0, stream.spec_pos()) {
                                    Some(v) => parse_derive_rest_at(ls0, q0 + 3) == Some(
                                        (names_shapes(derives@.drop_first()) + v.0, v.1),
                                    ),
                                    None => parse_derive_rest_at(ls0, q0 + 3) is None,
                                },
                            decreases stream.spec_tokens().len() - stream.spec_pos(),
                        {
                            let ghost u = stream.spec_pos();
                            let ghost prev = derives@;
                            stream.bump();
                            let next = match stream.take_ident() {
                                Ok(n) => n,
                                Err(e) => {
                                    proof {
                                        reveal_strlit("pub");
                                        reveal_strlit("derive");
                                        assert("derive"@.len() != "pub"@.len());
                                        assert(parse_derive_rest_at(ls0, u) is None);
                                        assert(parse_derive_rest_at(ls0, q0 + 3) is None);
                                        assert(parse_directives_at(ls0, q0, cur0) is None);
                                        assert(parse_def_at(ls0, p0) is None);
                                    }
                                    return Err(e);
                                },
                            };
                            derives.push(next);
                            proof {
                                assert(derives@.drop_first() =~= prev.drop_first() + seq![
                                    derives@[derives@.len() - 1],
                                ]);
                                match parse_derive_rest_at(ls0, stream.spec_pos()) {
                                    Some(v) => {
                                        assert(names_shapes(prev.drop_first()) + (seq![next@]
                                            + v.0) =~= names_shapes(derives@.drop_first()) + v.0);
                                    },
                                    None => {},
                                }
                            }
                        }
                        stream.expect_rparen()?;
                        proof {
                            let dnow = dir_shape(
                                visibility,
                                seen_visibility,
                                derives@,
                                seen_derive,
                                repr_c,
                                seen_repr_c,
                                input_type,
                                state_type,
                                output_type,
                            );
                            assert(seq![first_name] + names_shapes(derives@.drop_first())
                                =~= names_shapes(derives@));
                            assert(parse_directives_at(ls0, q0, cur0) == parse_directives_at(
                                ls0,
                                stream.spec_pos(),
                                dnow,
                            ));
                        }
                    } else if stream.peek2_lparen() && is_kw(&word, "repr_c") {
                        if seen_repr_c {
                            proof {
                                assert(parse_directives_at(ls0, q0, cur0) is None);
                            }
                            return Err(stream.grammar_error());
                        }
                        seen_repr_c = true;
                        stream.bump();
                        stream.expect_lparen()?;
                        let flag = stream.take_ident()?;
                        if is_kw(&flag, "true") {
                            repr_c = true;
                        } else if is_kw(&flag, "false") {
                            repr_c = false;
                        } else {
                            proof {
                                assert(parse_directives_at(ls0, q0, cur0) is None);
                            }
                            return Err(stream.grammar_error());
                        }
                        stream.expect_rparen()?;
                        proof {
                            assert(parse_directives_at(ls0, q0, cur0) == parse_directives_at(
                                ls0,
                                stream.spec_pos(),
                                dir_shape(
                                    visibility,
                                    seen_visibility,
                                    derives@,
                                    seen_derive,
                                    repr_c,
                                    seen_repr_c,
                                    input_type,
                                    state_type,
                                    output_type,
                                ),
                            ));
                        }
                    } else if stream.peek2_lparen() && is_kw(&word, "input") {
                        if input_type.is_some() {
                            proof {
                                assert(parse_directives_at(ls0, q0, cur0) is None);
                            }
                            return Err(stream.grammar_error());
                        }
                        stream.bump();
                        stream.expect_lparen()?;
                        let path = parse_path(stream)?;
                        stream.expect_rparen()?;
                        input_type = Some(path);
                        proof {
                            assert(parse_directives_at(ls0, q0, cur0) == parse_directives_at(
                                ls0,
                                stream.spec_pos(),
                                dir_shape(
                                    visibility,
                                    seen_visibility,
                                    derives@,
                                    seen_derive,
                                    repr_c,
                                    seen_repr_c,
                                    input_type,
                                    state_type,
                                    output_type,
                                ),
                            ));
                        }
                    } else if stream.peek2_lparen() && is_kw(&word, "state") {
                        if state_type.is_some() {
                            proof {
                                assert(parse_directives_at(ls0, q0, cur0) is None);
                            }
                            return Err(stream.grammar_error());
                        }
                        stream.bump();
                        stream.expect_lparen()?;
                        let path = parse_path(stream)?;
                        stream.expect_rparen()?;
                        state_type = Some(path);
                        proof {
                            assert(parse_directives_at(ls0, q0, cur0) == parse_directives_at(
                                ls0,
                                stream.spec_pos(),
                                dir_shape(
                                    visibility,
                                    seen_visibility,
                                    derives@,
                                    seen_derive,
                                    repr_c,
                                    seen_repr_c,
                                    input_type,
                                    state_type,
                                    output_type,
                                ),
                            ));
                        }
                    } else if stream.peek2_lparen() && is_kw(&word, "output") {
                        if output_type.is_some() {
                            proof {
                                assert(parse_directives_at(ls0, q0, cur0) is None);
                            }
                            return Err(stream.grammar_error());
                        }
                        stream.bump();
                        stream.expect_lparen()?;
                        let path = parse_path(stream)?;
                        stream.expect_rparen()?;
                        output_type = Some(path);
                        proof {
                            assert(parse_directives_at(ls0, q0, cur0) == parse_directives_at(
                                ls0,
                                stream.spec_pos(),
                                dir_shape(
                                    visibility,
                                    seen_visibility,
                                    derives@,
                                    seen_derive,
                                    repr_c,
                                    seen_repr_c,
                                    input_type,
                                    state_type,
                                    output_type,
                                ),
                            ));
                        }
                    } else {
                        proof {
                            assert(parse_directives_at(ls0, q0, cur0) == Some((cur0, q0)));
                        }
                        scanning = false;
                    }
                },
            }
        }
        let ghost q1 = stream.spec_pos();
        let ghost dshape = dir_shape(
            visibility,
            seen_visibility,
            derives@,
            seen_derive,
            repr_c,
            seen_repr_c,
            input_type,
            state_type,
            output_type,
        );
        let name = stream.take_ident()?;
        stream.expect_lparen()?;
        let initial_state = stream.take_ident()?;
        stream.expect_rparen()?;
        let ghost g0 = q1 + 4;
        let mut transitions: Vec<TransitionDef> = Vec::new();
        proof {
            assert(groups_shapes(transitions@) =~= Seq::<GroupShape>::empty());
            match parse_groups_at(ls0, g0) {
                Some(v) => {
                    assert(groups_shapes(transitions@) + v.0 =~= v.0);
                },
                None => {},
            }
        }
        while !stream.at_end()
            invariant
                stream.wf(),
                stream.spec_tokens() == old(stream).spec_tokens(),
                    stream.spec_starts() == old(stream).spec_starts(),
                    stream.spec_text_len() == old(stream).spec_text_len(),
                stream.spec_pos() >= old(stream).spec_pos(),
                ls0 == old(stream).spec_lexemes(),
                p0 == old(stream).spec_pos(),
                parse_directives_at(ls0, p0, no_directives()) == Some((dshape, q1)),
                0 <= q1 && q1 + 3 < ls0.len(),
                ls0[q1] == Lexeme::Ident(name@),
                ls0[q1 + 1] is LParen,
                ls0[q1 + 2] == Lexeme::Ident(initial_state@),
                ls0[q1 + 3] is RParen,
                g0 == q1 + 4,
                wf_name(name@),
                wf_name(initial_state@),
                forall|i: int| 0 <= i < transitions@.len() ==> wf_group(
                    #[trigger] transitions@[i],
                ),
                match parse_groups_at(ls0, stream.spec_pos()) {
                    Some(v) => parse_groups_at(ls0, g0) == Some(
                        (groups_shapes(transitions@) + v.0, v.1),
                    ),
                    None => parse_groups_at(ls0, g0) is None,
                },
            decreases stream.spec_tokens().len() - stream.spec_pos(),
        {
            let ghost u = stream.spec_pos();
            let ghost prevg = transitions@;
            let group = TransitionDef::parse(stream)?;
            proof {
                let vg = parse_group_at(ls0, u).unwrap().0;
                assert(vg.entries =~= entries_shapes(group.transitions@)) by {
                    assert forall|i: int| 0 <= i < vg.entries.len() implies vg.entries[i]
                        == entry_shape(group.transitions@[i]) by {
                        assert(entry_matches(group.transitions@[i], vg.entries[i]));
                    }
                }
                assert(vg == group_shape(group));
            }
            transitions.push(group);
            proof {
                assert(groups_shapes(transitions@) =~= groups_shapes(prevg) + seq![
                    group_shape(transitions@[transitions@.len() - 1]),
                ]);
            }
            if !stream.at_end() {
                stream.expect_comma()?;
                proof {
                    match parse_groups_at(ls0, stream.spec_pos()) {
                        Some(v) => {
                            assert(groups_shapes(prevg) + (seq![group_shape(
                                transitions@[transitions@.len() - 1],
                            )] + v.0) =~= groups_shapes(transitions@) + v.0);
                        },
                        None => {},
                    }
                }
            } else {
                proof {
                    assert(groups_shapes(prevg) + seq![group_shape(
                        transitions@[transitions@.len() - 1],
                    )] =~= groups_shapes(transitions@));
                    assert(groups_shapes(transitions@) + Seq::<GroupShape>::empty()
                        =~= groups_shapes(transitions@));
                }
            }
        }
        let result = StateMachineDef {
            visibility,
            name,
            initial_state,
            transitions,
            derives,
            repr_c,
            input_type,
            state_type,
            output_type,
        };
        proof {
            assert(groups_shapes(result.transitions@) + Seq::<GroupShape>::empty()
                =~= groups_shapes(result.transitions@));
            match parse_def_at(ls0, p0) {
                Some(v) => {
                    assert forall|i: int| 0 <= i < v.groups.len() implies group_matches(
                        #[trigger] result.transitions@[i],
                        v.groups[i],
                    ) by {
                        assert(v.groups[i] == group_shape(result.transitions@[i]));
                    }
                    assert(def_matches(result, v));
                },
                None => {
                    assert(false);
                },
            }
        }
        Ok(result)
    }
}

/// Parses DSL text into a state machine definition. Pure: the whole text
/// is consumed, and exactly when it lexes and spells the grammar a
/// definition carrying its names comes back; otherwise an error, never a
/// partial tree.
pub fn parse_definition(text: &str) -> (r: Result<StateMachineDef, CompileError>)
    ensures
        match r {
            Ok(d) => wf_def(d) && (match lex_at(text@, 0) {
                Some(ls) => (match parse_def_at(ls, 0) {
                    Some(v) => def_matches(d, v),
                    None => false,
                }),
                None => false,
            }),
            Err(e) => (e is GrammarError || e is EmptyCompactBlockError) && (match lex_at(
                text@,
                0,
            ) {
                Some(ls) => parse_def_at(ls, 0) is None,
                None => true,
            }) && (match e {
                CompileError::EmptyCompactBlockError { initial_state } => (match lex_at(
                    text@,
                    0,
                ) {
                    Some(ls) => exists|k: int|
                        empty_block_at(ls, k) && ls[k] == Lexeme::Ident(initial_state@),
                    None => false,
                }),
                CompileError::GrammarError { position } => (match lex_at(text@, 0) {
                    None => lex_failure_at(text@, 0) == Some(position as int),
                    Some(_) => position as int == text@.len() || (match lex_starts_at(
                        text@,
                        0,
                    ) {
                        Some(ss) => exists|p: int|
                            0 <= p < ss.len() && #[trigger] ss[p] == position as int,
                        None => false,
                    }),
                }),
                _ => true,
            }),
        },
{
    let mut stream = tokenize(text)?;
    let r = StateMachineDef::parse(&mut stream);
    proof {
        match &r {
            Err(CompileError::GrammarError { position }) => {
                if lex_at(text@, 0) is None {
                    assert(lex_failure_at(text@, 0) == Some(*position as int));
                } else {
                    let p = stream.spec_pos();
                    assert(*position as int == stream.offset_at(p));
                    if p < stream.spec_tokens().len() {
                        assert(starts_of(stream.spec_starts())[p] == *position as int);
                        assert(lex_starts_at(text@, 0) == Some(starts_of(stream.spec_starts())));
                        let ss = lex_starts_at(text@, 0).unwrap();
                        assert(0 <= p < ss.len());
                        assert(ss[p] == *position as int);
                    } else {
                        assert(*position as int == text@.len());
                    }
                }
            },
            _ => {},
        }
    }
    r
}

} // verus!
