//! Productions of a context-free grammar.

use crate::common::parse_tree::views;
use crate::common::symbol_table::{NonTerminal, Terminal};
use vstd::prelude::*;

verus! {

/// A symbol on the right-hand side of a production.
#[derive(Debug, PartialEq, Eq)]
pub enum GrammarSymbol {
    Terminal(Terminal),
    Nonterminal(NonTerminal),
}

/// A production: a non-terminal and the symbols it derives. An empty
/// right-hand side is the empty production.
#[derive(Debug, PartialEq, Eq, Default)]
pub struct Rule {
    pub non_terminal: NonTerminal,
    pub rhs: Vec<GrammarSymbol>,
}

/// The productions of a grammar, in the order of their declaration, and its
/// start symbol.
#[derive(Debug, PartialEq, Eq, Default)]
pub struct GrammarRules {
    pub start_symbol: NonTerminal,
    pub rules: Vec<Rule>,
}

/// A grammar symbol as a mathematical value.
pub ghost enum GrammarSymbolView {
    Terminal(Seq<char>),
    Nonterminal(Seq<char>),
}

/// A production as a mathematical value.
pub ghost struct RuleView {
    pub non_terminal: Seq<char>,
    pub rhs: Seq<GrammarSymbolView>,
}

/// A grammar as a mathematical value.
pub ghost struct GrammarRulesView {
    pub start_symbol: Seq<char>,
    pub rules: Seq<RuleView>,
}

impl View for GrammarSymbol {
    type V = GrammarSymbolView;

    open spec fn view(&self) -> GrammarSymbolView {
        match self {
            GrammarSymbol::Terminal(t) => GrammarSymbolView::Terminal(t@),
            GrammarSymbol::Nonterminal(n) => GrammarSymbolView::Nonterminal(n@),
        }
    }
}

impl View for Rule {
    type V = RuleView;

    open spec fn view(&self) -> RuleView {
        RuleView { non_terminal: self.non_terminal@, rhs: views(self.rhs@) }
    }
}

impl View for GrammarRules {
    type V = GrammarRulesView;

    open spec fn view(&self) -> GrammarRulesView {
        GrammarRulesView { start_symbol: self.start_symbol@, rules: views(self.rules@) }
    }
}

impl Clone for GrammarSymbol {
    fn clone(&self) -> (r: Self)
        ensures
            r@ == self@,
    {
        match self {
            GrammarSymbol::Terminal(t) => GrammarSymbol::Terminal(t.clone()),
            GrammarSymbol::Nonterminal(n) => GrammarSymbol::Nonterminal(n.clone()),
        }
    }
}

/// A copy of a right-hand side.
pub fn clone_symbols(symbols: &Vec<GrammarSymbol>) -> (r: Vec<GrammarSymbol>)
    ensures
        views(r@) == views(symbols@),
{
    let mut copies: Vec<GrammarSymbol> = Vec::new();
    let mut i: usize = 0;
    while i < symbols.len()
        invariant
            i <= symbols.len(),
            copies.len() == i,
            forall|k: int| 0 <= k < i ==> copies@[k]@ == symbols@[k]@,
        decreases symbols.len() - i,
    {
        copies.push(symbols[i].clone());
        i += 1;
    }
    assert(views(copies@) =~= views(symbols@));
    copies
}

impl Clone for Rule {
    fn clone(&self) -> (r: Self)
        ensures
            r@ == self@,
    {
        Rule { non_terminal: self.non_terminal.clone(), rhs: clone_symbols(&self.rhs) }
    }
}

impl Clone for GrammarRules {
    fn clone(&self) -> (r: Self)
        ensures
            r@ == self@,
    {
        let mut copies: Vec<Rule> = Vec::new();
        let mut i: usize = 0;
        while i < self.rules.len()
            invariant
                i <= self.rules.len(),
                copies.len() == i,
                forall|k: int| 0 <= k < i ==> copies@[k]@ == self.rules@[k]@,
            decreases self.rules.len() - i,
        {
            copies.push(self.rules[i].clone());
            i += 1;
        }
        assert(views(copies@) =~= views(self.rules@));
        GrammarRules { start_symbol: self.start_symbol.clone(), rules: copies }
    }
}

impl GrammarSymbol {
    /// The terminal named `name`, as a grammar symbol.
    pub fn terminal(name: &str) -> (r: Self)
        ensures
            r@ == GrammarSymbolView::Terminal(name@),
    {
        GrammarSymbol::Terminal(Terminal::named(name))
    }

    /// The non-terminal named `name`, as a grammar symbol.
    pub fn non_terminal(name: &str) -> (r: Self)
        ensures
            r@ == GrammarSymbolView::Nonterminal(name@),
    {
        GrammarSymbol::Nonterminal(NonTerminal::named(name))
    }
}

impl Rule {
    /// The production of the non-terminal named `lhs` with the right-hand
    /// side `rhs`.
    pub fn new(lhs: &str, rhs: Vec<GrammarSymbol>) -> (r: Self)
        ensures
            r@ == (RuleView { non_terminal: lhs@, rhs: views(rhs@) }),
    {
        Rule { non_terminal: NonTerminal::named(lhs), rhs }
    }
}

} // verus!
