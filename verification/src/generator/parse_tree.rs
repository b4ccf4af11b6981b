//! Reading the alternatives of a rule out of the parse tree of a grammar
//! text.

use crate::common::parse_tree::{lemma_inner_view, views, NodeView, ParseTreeNode, Symbol, SymbolView};
use crate::common::symbol_table::{NonTerminal, Terminal};
use vstd::prelude::*;

verus! {

/// The message for a leaf that is no atom of a grammar.
pub open spec fn unexpected_terminal(token: Seq<char>) -> Seq<char> {
    "Unexpected terminal token: "@ + token
}

/// The message for an inner node where an atom was expected.
pub open spec fn not_a_leaf(symbol: Seq<char>) -> Seq<char> {
    "Cannot convert non-terminal symbol to symbol: "@ + symbol
}

/// The atom that a leaf of the grammar notation stands for: a literal, a
/// regular expression or an identifier with the leaf's text, or the empty
/// production.
pub open spec fn symbol_of(node: NodeView) -> Result<SymbolView, Seq<char>> {
    match node {
        NodeView::Leaf { token, lexeme, .. } => {
            if token == "Literal"@ {
                Ok(SymbolView::Literal(lexeme))
            } else if token == "Regex"@ {
                Ok(SymbolView::Regex(lexeme))
            } else if token == "Identifier"@ {
                Ok(SymbolView::Identifier(lexeme))
            } else if token == "Empty"@ {
                Ok(SymbolView::Epsilon)
            } else {
                Err(unexpected_terminal(token))
            }
        },
        NodeView::Inner { symbol, .. } => Err(not_a_leaf(symbol)),
    }
}

/// The atom of a factor: its first child, or its second where the first is
/// white space before the atom.
pub open spec fn atom_of(node: NodeView) -> Result<SymbolView, Seq<char>> {
    if !node.is_non_terminal("Factor"@) {
        Err("Collect atom call on non-factor node"@)
    } else if node.children().len() == 0 {
        Err("Factor has no children"@)
    } else if !node.children()[0].is_non_terminal("FactorRepetition"@) {
        symbol_of(node.children()[0])
    } else if node.children().len() == 1 {
        Err("Factor has no atom"@)
    } else {
        symbol_of(node.children()[1])
    }
}

/// The atoms of the given factors, in order; the error of the first that
/// has none.
pub open spec fn atoms_of(factors: Seq<NodeView>) -> Result<Seq<SymbolView>, Seq<char>>
    decreases factors.len(),
{
    if factors.len() == 0 {
        Ok(Seq::empty())
    } else {
        match atoms_of(factors.drop_last()) {
            Err(message) => Err(message),
            Ok(atoms) => match atom_of(factors.last()) {
                Err(message) => Err(message),
                Ok(atom) => Ok(atoms.push(atom)),
            },
        }
    }
}

/// The atoms of a term: the empty production alone, or the atoms of its
/// factors.
pub open spec fn factors_of(node: NodeView) -> Result<Seq<SymbolView>, Seq<char>> {
    if !node.is_non_terminal("Term"@) {
        Err("Collect factors call on non-term node"@)
    } else if node.children().len() == 1 && node.children()[0].is_terminal("Empty"@) {
        Ok(seq![SymbolView::Epsilon])
    } else if node.children().len() > 0 && node.children()[0].is_non_terminal("Factor"@) {
        atoms_of(node.children())
    } else {
        Err("Unexpected children in term"@)
    }
}

/// The alternatives among the given children of an expression: the atoms of
/// each term, in order. A `Pipe` leaf between them adds nothing; any other
/// child is an error.
pub open spec fn alternatives_of(children: Seq<NodeView>) -> Result<
    Seq<Seq<SymbolView>>,
    Seq<char>,
>
    decreases children.len(),
{
    if children.len() == 0 {
        Ok(Seq::empty())
    } else {
        match alternatives_of(children.drop_last()) {
            Err(message) => Err(message),
            Ok(alternatives) => {
                let child = children.last();
                if child.is_non_terminal("Term"@) {
                    match factors_of(child) {
                        Err(message) => Err(message),
                        Ok(atoms) => Ok(alternatives.push(atoms)),
                    }
                } else if child.is_terminal("Pipe"@) {
                    Ok(alternatives)
                } else {
                    Err("Unexpected child in expression"@)
                }
            },
        }
    }
}

/// The alternatives of an expression.
pub open spec fn terms_of(node: NodeView) -> Result<Seq<Seq<SymbolView>>, Seq<char>> {
    if !node.is_non_terminal("Expression"@) {
        Err("Collect terms call on non-expression node"@)
    } else if node.children().len() == 0 {
        Err("Expression has no children"@)
    } else {
        alternatives_of(node.children())
    }
}

/// The views of the atoms of each alternative, in order.
pub open spec fn alternative_views(alternatives: Seq<Vec<Symbol>>) -> Seq<Seq<SymbolView>> {
    Seq::new(alternatives.len(), |i: int| views(alternatives[i]@))
}

/// What a result holds: a value by its view, a message by its text.
pub open spec fn symbol_result(r: Result<Symbol, String>) -> Result<SymbolView, Seq<char>> {
    match r {
        Ok(symbol) => Ok(symbol@),
        Err(message) => Err(message@),
    }
}

/// What a result holds: a value by its view, a message by its text.
pub open spec fn symbols_result(r: Result<Vec<Symbol>, String>) -> Result<
    Seq<SymbolView>,
    Seq<char>,
> {
    match r {
        Ok(symbols) => Ok(views(symbols@)),
        Err(message) => Err(message@),
    }
}

/// What a result holds: a value by its view, a message by its text.
pub open spec fn alternatives_result(r: Result<Vec<Vec<Symbol>>, String>) -> Result<
    Seq<Seq<SymbolView>>,
    Seq<char>,
> {
    match r {
        Ok(alternatives) => Ok(alternative_views(alternatives@)),
        Err(message) => Err(message@),
    }
}

fn message_with(prefix: &str, name: &String) -> (r: String)
    ensures
        r@ == prefix@ + name@,
{
    let mut message = String::from_str(prefix);
    message.append(name.as_str());
    message
}

impl ParseTreeNode {
    /// Converts a terminal parse tree node to a Symbol.
    ///
    /// # Errors
    /// Returns an error message if the node is no leaf, or a leaf of a
    /// terminal that is no atom.
    pub fn to_symbol(&self) -> (r: Result<Symbol, String>)
        ensures
            symbol_result(r) == symbol_of(self@),
    {
        match self {
            Self::Terminal { token, lexeme, .. } => {
                if token.is_named("Literal") {
                    Ok(Symbol::Literal(lexeme.clone()))
                } else if token.is_named("Regex") {
                    Ok(Symbol::Regex(lexeme.clone()))
                } else if token.is_named("Identifier") {
                    Ok(Symbol::Identifier(lexeme.clone()))
                } else if token.is_named("Empty") {
                    Ok(Symbol::Epsilon)
                } else {
                    Err(message_with("Unexpected terminal token: ", &token.0))
                }
            },
            Self::NonTerminal { symbol, .. } => {
                proof {
                    lemma_inner_view(*self);
                }
                Err(message_with("Cannot convert non-terminal symbol to symbol: ", &symbol.0))
            },
        }
    }

    /// Gets terms from an expression node in the parse tree.
    ///
    /// # Errors
    /// Returns an error if the node is not an expression, has no children,
    /// has a child that is neither a term nor a `Pipe`, or has a term whose
    /// factors cannot be read.
    #[verifier::loop_isolation(false)]
    pub fn get_terms(&self) -> (r: Result<Vec<Vec<Symbol>>, String>)
        ensures
            alternatives_result(r) == terms_of(self@),
    {
        let expression = NonTerminal::named("Expression");
        let term = NonTerminal::named("Term");
        let pipe = Terminal::named("Pipe");
        if !self.is_non_terminal(&expression) {
            return Err(String::from_str("Collect terms call on non-expression node"));
        }
        let children = self.get_children();
        if children.len() == 0 {
            return Err(String::from_str("Expression has no children"));
        }
        let ghost shown = self@.children();
        let mut alternatives: Vec<Vec<Symbol>> = Vec::new();
        let mut i: usize = 0;
        assert(alternative_views(alternatives@) =~= Seq::<Seq<SymbolView>>::empty());
        while i < children.len()
            invariant
                i <= children.len(),
                shown == views(children@),
                term@ == "Term"@,
                pipe@ == "Pipe"@,
                alternatives_of(shown.take(i as int)) == Ok::<Seq<Seq<SymbolView>>, Seq<char>>(
                    alternative_views(alternatives@),
                ),
            decreases children.len() - i,
        {
            let child = &children[i];
            proof {
                assert(shown.take(i + 1).drop_last() =~= shown.take(i as int));
                assert(shown.take(i + 1).last() == child@);
            }
            if child.is_non_terminal(&term) {
                match child.get_factors() {
                    Ok(atoms) => {
                        let ghost before = alternatives@;
                        alternatives.push(atoms);
                        assert(alternative_views(alternatives@) =~= alternative_views(before).push(
                            views(atoms@),
                        ));
                    },
                    Err(message) => {
                        proof {
                            lemma_alternatives_fail(shown, i + 1);
                        }
                        return Err(message);
                    },
                }
            } else if !child.is_terminal(&pipe) {
                proof {
                    lemma_alternatives_fail(shown, i + 1);
                }
                return Err(String::from_str("Unexpected child in expression"));
            }
            i += 1;
        }
        assert(shown.take(i as int) =~= shown);
        Ok(alternatives)
    }

    /// Gets factors from a term node in the parse tree.
    ///
    /// # Errors
    /// Returns an error if the node is not a term, has unexpected children,
    /// or has a factor whose atom cannot be read.
    #[verifier::loop_isolation(false)]
    pub fn get_factors(&self) -> (r: Result<Vec<Symbol>, String>)
        ensures
            symbols_result(r) == factors_of(self@),
    {
        let term = NonTerminal::named("Term");
        let factor = NonTerminal::named("Factor");
        let empty = Terminal::named("Empty");
        if !self.is_non_terminal(&term) {
            return Err(String::from_str("Collect factors call on non-term node"));
        }
        let children = self.get_children();
        let ghost shown = self@.children();
        if children.len() == 1 && children[0].is_terminal(&empty) {
            let mut atoms: Vec<Symbol> = Vec::new();
            atoms.push(Symbol::Epsilon);
            assert(views(atoms@) =~= seq![SymbolView::Epsilon]);
            Ok(atoms)
        } else if children.len() > 0 && children[0].is_non_terminal(&factor) {
            let mut atoms: Vec<Symbol> = Vec::new();
            let mut i: usize = 0;
            assert(views(atoms@) =~= Seq::<SymbolView>::empty());
            while i < children.len()
                invariant
                    i <= children.len(),
                    shown == views(children@),
                    atoms_of(shown.take(i as int)) == Ok::<Seq<SymbolView>, Seq<char>>(
                        views(atoms@),
                    ),
                decreases children.len() - i,
            {
                proof {
                    assert(shown.take(i + 1).drop_last() =~= shown.take(i as int));
                    assert(shown.take(i + 1).last() == children@[i as int]@);
                }
                match children[i].get_atom() {
                    Ok(atom) => {
                        let ghost before = atoms@;
                        atoms.push(atom);
                        assert(views(atoms@) =~= views(before).push(atom@));
                    },
                    Err(message) => {
                        proof {
                            lemma_atoms_fail(shown, i + 1);
                        }
                        return Err(message);
                    },
                }
                i += 1;
            }
            assert(shown.take(i as int) =~= shown);
            Ok(atoms)
        } else {
            Err(String::from_str("Unexpected children in term"))
        }
    }

    /// Gets atom from a factor node in the parse tree.
    ///
    /// # Errors
    /// Returns an error if the node is not a factor, has no children, or
    /// holds no atom where one is expected.
    pub fn get_atom(&self) -> (r: Result<Symbol, String>)
        ensures
            symbol_result(r) == atom_of(self@),
    {
        let factor = NonTerminal::named("Factor");
        let factor_repetition = NonTerminal::named("FactorRepetition");
        if !self.is_non_terminal(&factor) {
            return Err(String::from_str("Collect atom call on non-factor node"));
        }
        let children = self.get_children();
        if children.len() == 0 {
            return Err(String::from_str("Factor has no children"));
        }
        if children[0].is_non_terminal(&factor_repetition) {
            if children.len() == 1 {
                return Err(String::from_str("Factor has no atom"));
            }
            children[1].to_symbol()
        } else {
            children[0].to_symbol()
        }
    }
}

/// Where the atoms of the first `count` factors cannot be read, those of
/// all the factors cannot either, for the same reason.
pub proof fn lemma_atoms_fail(factors: Seq<NodeView>, count: int)
    requires
        0 <= count <= factors.len(),
        atoms_of(factors.take(count)) is Err,
    ensures
        atoms_of(factors) == atoms_of(factors.take(count)),
    decreases factors.len() - count,
{
    if count < factors.len() {
        assert(factors.take(count + 1).drop_last() =~= factors.take(count));
        lemma_atoms_fail(factors, count + 1);
    } else {
        assert(factors.take(count) =~= factors);
    }
}

/// Where the alternatives among the first `count` children cannot be read,
/// those among all the children cannot either, for the same reason.
pub proof fn lemma_alternatives_fail(children: Seq<NodeView>, count: int)
    requires
        0 <= count <= children.len(),
        alternatives_of(children.take(count)) is Err,
    ensures
        alternatives_of(children) == alternatives_of(children.take(count)),
    decreases children.len() - count,
{
    if count < children.len() {
        assert(children.take(count + 1).drop_last() =~= children.take(count));
        lemma_alternatives_fail(children, count + 1);
    } else {
        assert(children.take(count) =~= children);
    }
}

} // verus!
