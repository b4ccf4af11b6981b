//! Turning the rules of a grammar text into productions over the symbols of
//! a symbol table.

use crate::common::grammar_rules::{GrammarSymbol, GrammarSymbolView, Rule, RuleView};
use crate::common::parse_tree::{symbol_text, views, Symbol, SymbolView};
use crate::common::symbol_table::{NonTerminal, SymbolTable, SymbolTableView, Terminal};
use crate::generator::classification::{defines_terminal, Production, ProductionView};
use crate::generator::parse_tree::alternative_views;
use crate::generator::patterns::{unquote, unquoted};
use vstd::prelude::*;

verus! {

/// The grammar symbol that an atom stands for. The empty production stands
/// for none. Any other atom is looked up by its text without quotes: it is
/// the non-terminal of that name, or else the terminal of that name, or
/// else an error that holds the name.
pub open spec fn resolve_symbol(symbol: SymbolView, table: SymbolTableView) -> Result<
    Option<GrammarSymbolView>,
    Seq<char>,
> {
    let name = unquoted(symbol_text(symbol));
    if symbol is Epsilon {
        Ok(None)
    } else if table.non_terminals.contains_key(name) {
        Ok(Some(GrammarSymbolView::Nonterminal(table.non_terminals[name])))
    } else if table.terminals.contains_key(name) {
        Ok(Some(GrammarSymbolView::Terminal(table.terminals[name])))
    } else {
        Err(name)
    }
}

/// The right-hand side that the atoms of an alternative stand for, or the
/// name of the first atom that stands for no symbol.
pub open spec fn resolve_atoms(atoms: Seq<SymbolView>, table: SymbolTableView) -> Result<
    Seq<GrammarSymbolView>,
    Seq<char>,
>
    decreases atoms.len(),
{
    if atoms.len() == 0 {
        Ok(Seq::empty())
    } else {
        match resolve_atoms(atoms.drop_last(), table) {
            Err(name) => Err(name),
            Ok(done) => match resolve_symbol(atoms.last(), table) {
                Err(name) => Err(name),
                Ok(None) => Ok(done),
                Ok(Some(symbol)) => Ok(done.push(symbol)),
            },
        }
    }
}

/// The productions of `lhs` that the alternatives stand for, one for each,
/// or the name of the first atom that stands for no symbol.
pub open spec fn resolve_alternatives(
    lhs: Seq<char>,
    alternatives: Seq<Seq<SymbolView>>,
    table: SymbolTableView,
) -> Result<Seq<RuleView>, Seq<char>>
    decreases alternatives.len(),
{
    if alternatives.len() == 0 {
        Ok(Seq::empty())
    } else {
        match resolve_alternatives(lhs, alternatives.drop_last(), table) {
            Err(name) => Err(name),
            Ok(done) => match resolve_atoms(alternatives.last(), table) {
                Err(name) => Err(name),
                Ok(rhs) => Ok(done.push(RuleView { non_terminal: lhs, rhs })),
            },
        }
    }
}

/// The productions that the rules of the non-terminals stand for, in the
/// order of the rules, or the name of the first atom that stands for no
/// symbol.
pub open spec fn resolve_all(rules: Seq<ProductionView>, table: SymbolTableView) -> Result<
    Seq<RuleView>,
    Seq<char>,
>
    decreases rules.len(),
{
    if rules.len() == 0 {
        Ok(Seq::empty())
    } else {
        match resolve_all(rules.drop_last(), table) {
            Err(name) => Err(name),
            Ok(done) => if defines_terminal(rules.last()) {
                Ok(done)
            } else {
                match resolve_alternatives(rules.last().lhs, rules.last().alternatives, table) {
                    Err(name) => Err(name),
                    Ok(more) => Ok(done + more),
                }
            },
        }
    }
}

/// What a result holds: the symbol by its view, the name by its text.
pub open spec fn symbol_outcome(r: Result<Option<GrammarSymbol>, String>) -> Result<
    Option<GrammarSymbolView>,
    Seq<char>,
> {
    match r {
        Ok(Some(symbol)) => Ok(Some(symbol@)),
        Ok(None) => Ok(None),
        Err(name) => Err(name@),
    }
}

/// What a result holds: the symbols by their views, the name by its text.
pub open spec fn symbols_outcome(r: Result<Vec<GrammarSymbol>, String>) -> Result<
    Seq<GrammarSymbolView>,
    Seq<char>,
> {
    match r {
        Ok(symbols) => Ok(views(symbols@)),
        Err(name) => Err(name@),
    }
}

/// What a result holds: the productions by their views, the name by its
/// text.
pub open spec fn rules_outcome(r: Result<Vec<Rule>, String>) -> Result<Seq<RuleView>, Seq<char>> {
    match r {
        Ok(rules) => Ok(views(rules@)),
        Err(name) => Err(name@),
    }
}

/// Looks up the grammar symbol that an atom stands for.
pub fn symbol_for(symbol: &Symbol, table: &SymbolTable) -> (r: Result<
    Option<GrammarSymbol>,
    String,
>)
    requires
        table.wf(),
    ensures
        symbol_outcome(r) == resolve_symbol(symbol@, table@),
{
    match symbol {
        Symbol::Epsilon => Ok(None),
        _ => {
            let text = symbol.to_string();
            let name = unquote(text.as_str());
            match table.get_non_terminal_id(name) {
                Some(non_terminal) => Ok(Some(GrammarSymbol::Nonterminal(non_terminal))),
                None => match table.get_terminal_id(name) {
                    Some(terminal) => Ok(Some(GrammarSymbol::Terminal(terminal))),
                    None => Err(String::from_str(name)),
                },
            }
        },
    }
}

/// Looks up the right-hand side that the atoms of an alternative stand for.
pub fn symbols_for(atoms: &Vec<Symbol>, table: &SymbolTable) -> (r: Result<
    Vec<GrammarSymbol>,
    String,
>)
    requires
        table.wf(),
    ensures
        symbols_outcome(r) == resolve_atoms(views(atoms@), table@),
{
    let ghost shown = views(atoms@);
    let mut outcome: Result<Vec<GrammarSymbol>, String> = Ok(Vec::new());
    let mut i: usize = 0;
    assert(symbols_outcome(outcome) =~= resolve_atoms(shown.take(0), table@)) by {
        assert(views(outcome->Ok_0@) =~= Seq::<GrammarSymbolView>::empty());
    }
    while i < atoms.len()
        invariant
            i <= atoms.len(),
            table.wf(),
            shown == views(atoms@),
            symbols_outcome(outcome) == resolve_atoms(shown.take(i as int), table@),
        decreases atoms.len() - i,
    {
        proof {
            assert(shown.take(i + 1).drop_last() =~= shown.take(i as int));
            assert(shown.take(i + 1).last() == atoms@[i as int]@);
        }
        outcome = match outcome {
            Err(name) => Err(name),
            Ok(mut done) => match symbol_for(&atoms[i], table) {
                Err(name) => Err(name),
                Ok(None) => Ok(done),
                Ok(Some(symbol)) => {
                    let ghost before = views(done@);
                    done.push(symbol);
                    assert(views(done@) =~= before.push(symbol@));
                    Ok(done)
                },
            },
        };
        i += 1;
    }
    assert(shown.take(i as int) =~= shown);
    outcome
}

/// Looks up the productions of `lhs` that the alternatives stand for.
pub fn rules_for(lhs: &String, alternatives: &Vec<Vec<Symbol>>, table: &SymbolTable) -> (r: Result<
    Vec<Rule>,
    String,
>)
    requires
        table.wf(),
    ensures
        rules_outcome(r) == resolve_alternatives(lhs@, alternative_views(alternatives@), table@),
{
    let ghost shown = alternative_views(alternatives@);
    let mut outcome: Result<Vec<Rule>, String> = Ok(Vec::new());
    let mut i: usize = 0;
    assert(rules_outcome(outcome) =~= resolve_alternatives(lhs@, shown.take(0), table@)) by {
        assert(views(outcome->Ok_0@) =~= Seq::<RuleView>::empty());
    }
    while i < alternatives.len()
        invariant
            i <= alternatives.len(),
            table.wf(),
            shown == alternative_views(alternatives@),
            rules_outcome(outcome) == resolve_alternatives(lhs@, shown.take(i as int), table@),
        decreases alternatives.len() - i,
    {
        proof {
            assert(shown.take(i + 1).drop_last() =~= shown.take(i as int));
            assert(shown.take(i + 1).last() == views(alternatives@[i as int]@));
        }
        outcome = match outcome {
            Err(name) => Err(name),
            Ok(mut done) => match symbols_for(&alternatives[i], table) {
                Err(name) => Err(name),
                Ok(rhs) => {
                    let ghost before = views(done@);
                    let rule = Rule { non_terminal: NonTerminal(lhs.clone()), rhs };
                    done.push(rule);
                    assert(views(done@) =~= before.push(rule@));
                    Ok(done)
                },
            },
        };
        i += 1;
    }
    assert(shown.take(i as int) =~= shown);
    outcome
}

/// Looks up the productions that the rules of the non-terminals stand for.
/// `terminal[k]` tells whether the rule `k` defines a terminal.
pub fn all_rules_for(rules: &Vec<Production>, terminal: &Vec<bool>, table: &SymbolTable) -> (r:
    Result<Vec<Rule>, String>)
    requires
        table.wf(),
        terminal.len() == rules.len(),
        forall|k: int| 0 <= k < rules.len() ==> terminal@[k] == defines_terminal(#[trigger] rules@[k]@),
    ensures
        rules_outcome(r) == resolve_all(views(rules@), table@),
{
    let ghost shown = views(rules@);
    let mut outcome: Result<Vec<Rule>, String> = Ok(Vec::new());
    let mut i: usize = 0;
    assert(rules_outcome(outcome) =~= resolve_all(shown.take(0), table@)) by {
        assert(views(outcome->Ok_0@) =~= Seq::<RuleView>::empty());
    }
    while i < rules.len()
        invariant
            i <= rules.len(),
            table.wf(),
            terminal.len() == rules.len(),
            forall|k: int|
                0 <= k < rules.len() ==> terminal@[k] == defines_terminal(#[trigger] rules@[k]@),
            shown == views(rules@),
            rules_outcome(outcome) == resolve_all(shown.take(i as int), table@),
        decreases rules.len() - i,
    {
        proof {
            assert(shown.take(i + 1).drop_last() =~= shown.take(i as int));
            assert(shown.take(i + 1).last() == rules@[i as int]@);
        }
        if !terminal[i] {
            outcome = match outcome {
                Err(name) => Err(name),
                Ok(mut done) => match rules_for(&rules[i].lhs, &rules[i].alternatives, table) {
                    Err(name) => Err(name),
                    Ok(mut more) => {
                        let ghost before = views(done@);
                        let ghost added = views(more@);
                        done.append(&mut more);
                        assert(views(done@) =~= before + added);
                        Ok(done)
                    },
                },
            };
        }
        i += 1;
    }
    assert(shown.take(i as int) =~= shown);
    outcome
}

} // verus!
