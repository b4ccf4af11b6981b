//! The symbols of the grammar notation.

use crate::common::parse_tree::views;
use crate::common::symbol_table::{identity_map, SymbolTable, SymbolTableView};
use vstd::prelude::*;

verus! {

/// The names of the terminals of the grammar notation.
pub open spec fn terminal_names() -> Seq<Seq<char>> {
    seq![
        "At"@,
        "Equal"@,
        "Pipe"@,
        "LeftBrace"@,
        "RightBrace"@,
        "LeftBracket"@,
        "RightBracket"@,
        "LeftParentheses"@,
        "RightParentheses"@,
        "Comma"@,
        "Tilde"@,
        "PositiveLookAhead"@,
        "NegativeLookAhead"@,
        "PositiveLookBehind"@,
        "NegativeLookBehind"@,
        "Empty"@,
        "Literal"@,
        "Regex"@,
        "Identifier"@,
        "LeftIdentifier"@,
        "Comment"@,
        "Whitespace"@,
    ]
}

/// The names of the non-terminals of the grammar notation.
pub open spec fn non_terminal_names() -> Seq<Seq<char>> {
    seq![
        "Grammar"@,
        "Directive"@,
        "Value"@,
        "List"@,
        "Rule"@,
        "Expression"@,
        "Term"@,
        "Factor"@,
        "FactorRepetition"@,
        "Atom"@,
        "Group"@,
        "Optional"@,
        "Repetition"@,
        "Lookahead"@,
        "LookaheadGroup"@,
    ]
}

/// The texts of `names`, in order.
pub open spec fn texts_of(names: Seq<&str>) -> Seq<Seq<char>> {
    Seq::new(names.len(), |i: int| names[i]@)
}

/// The names of `texts` as owned strings.
fn owned(texts: &[&str]) -> (r: Vec<String>)
    ensures
        views(r@) == texts_of(texts@),
{
    let mut names: Vec<String> = Vec::new();
    let mut i: usize = 0;
    while i < texts.len()
        invariant
            i <= texts.len(),
            names.len() == i,
            forall|k: int| 0 <= k < i ==> (#[trigger] names@[k])@ == texts@[k]@,
        decreases texts.len() - i,
    {
        names.push(String::from_str(texts[i]));
        i += 1;
    }
    assert(views(names@) =~= texts_of(texts@));
    names
}

/// The table that holds the given terminals and non-terminals, each shown
/// under its own name.
pub fn table_of(terminals: &[&str], non_terminals: &[&str]) -> (r: SymbolTable)
    ensures
        r.wf(),
        r@ == (SymbolTableView {
            non_terminals: identity_map(texts_of(non_terminals@)),
            terminals: identity_map(texts_of(terminals@)),
            non_terminal_names: identity_map(texts_of(non_terminals@)),
            terminal_names: identity_map(texts_of(terminals@)),
        }),
{
    let terminal_names = owned(terminals);
    let non_terminal_names = owned(non_terminals);
    SymbolTable::of_names(&terminal_names, &non_terminal_names)
}

/// The symbol table of the grammar notation.
pub fn symbol_table() -> (r: SymbolTable)
    ensures
        r.wf(),
        r@ == (SymbolTableView {
            non_terminals: identity_map(non_terminal_names()),
            terminals: identity_map(terminal_names()),
            non_terminal_names: identity_map(non_terminal_names()),
            terminal_names: identity_map(terminal_names()),
        }),
{
    let terminals = [
        "At",
        "Equal",
        "Pipe",
        "LeftBrace",
        "RightBrace",
        "LeftBracket",
        "RightBracket",
        "LeftParentheses",
        "RightParentheses",
        "Comma",
        "Tilde",
        "PositiveLookAhead",
        "NegativeLookAhead",
        "PositiveLookBehind",
        "NegativeLookBehind",
        "Empty",
        "Literal",
        "Regex",
        "Identifier",
        "LeftIdentifier",
        "Comment",
        "Whitespace",
    ];
    let non_terminals = [
        "Grammar",
        "Directive",
        "Value",
        "List",
        "Rule",
        "Expression",
        "Term",
        "Factor",
        "FactorRepetition",
        "Atom",
        "Group",
        "Optional",
        "Repetition",
        "Lookahead",
        "LookaheadGroup",
    ];
    assert(texts_of(terminals@) =~= terminal_names());
    assert(texts_of(non_terminals@) =~= non_terminal_names());
    table_of(&terminals, &non_terminals)
}

} // verus!
