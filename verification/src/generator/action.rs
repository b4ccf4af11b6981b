//! The action that builds the parse tree of a grammar text.

use crate::common::action::{
    build_node, inner_of, leaf_of, names_transient, push_leaf, syntax_error, tree_nodes,
    tree_reduced, unexpected, Action, Call,
};
use crate::common::grammar_rules::GrammarSymbol;
use crate::common::parse_tree::{views, NodeView, ParseError, ParseTreeNode, Span};
use crate::common::symbol_table::NonTerminal;
use crate::compiler::lexer::Token;
use vstd::prelude::*;

verus! {

/// The action that builds the parse tree of a grammar text: lists are kept
/// flat, white space that is not there is left out, and the non-terminals
/// that only group others get no node.
pub struct ParseTreeAction {
    node_stack: Vec<ParseTreeNode>,
    heard: Ghost<Seq<Call>>,
}

impl ParseTreeAction {
    /// The nodes built so far that have no parent yet, bottom first.
    pub closed spec fn nodes(&self) -> Seq<NodeView> {
        views(self.node_stack@)
    }

    /// The action before the first token.
    pub fn new() -> (r: Self)
        ensures
            r.consistent(),
            r.heard() == Seq::<Call>::empty(),
            r.nodes() == Seq::<NodeView>::empty(),
    {
        let r = Self { node_stack: Vec::new(), heard: Ghost(Seq::empty()) };
        assert(r.nodes() =~= Seq::<NodeView>::empty());
        r
    }
}

impl Action for ParseTreeAction {
    type ParseResult = ParseTreeNode;

    type ParseError = ParseError;

    closed spec fn heard(&self) -> Seq<Call> {
        self.heard@
    }

    open spec fn consistent(&self) -> bool {
        self.nodes() == tree_nodes(self.heard())
    }

    open spec fn delivered(&self, result: &ParseTreeNode) -> bool {
        &&& self.heard().len() > 0
        &&& self.heard().last() == Call::Accept
        &&& result@ == inner_of("Grammar"@, tree_nodes(self.heard().drop_last()))
    }

    open spec fn reported(&self, error: &ParseError) -> bool {
        &&& self.heard().len() > 0
        &&& self.heard().last() matches Call::Error(token, span)
        &&& error@ == syntax_error(token.text, span)
    }

    fn on_reduce(&mut self, non_terminal: &NonTerminal, rhs: &[GrammarSymbol])
        ensures
            final(self).nodes() == tree_reduced(old(self).nodes(), non_terminal@, rhs@.len()),
    {
        if !names_transient(non_terminal) {
            build_node(&mut self.node_stack, non_terminal, rhs.len());
        }
        proof {
            let told = self.heard@.push(Call::Reduce(non_terminal@, views(rhs@)));
            assert(told.drop_last() =~= self.heard@);
            assert(views(rhs@).len() == rhs@.len());
            self.heard = Ghost(told);
        }
    }

    fn on_shift(&mut self, token: Token)
        ensures
            final(self).nodes() == old(self).nodes().push(
                leaf_of(token@.kind, token@.text, token@.start, token@.end),
            ),
    {
        proof {
            let told = self.heard@.push(Call::Shift(token@));
            assert(told.drop_last() =~= self.heard@);
            self.heard = Ghost(told);
        }
        push_leaf(&mut self.node_stack, token);
    }

    fn on_accept(&mut self) -> (r: Self::ParseResult)
        ensures
            final(self).nodes() == Seq::<NodeView>::empty(),
            r@ == inner_of("Grammar"@, old(self).nodes()),
    {
        let mut children: Vec<ParseTreeNode> = Vec::new();
        children.append(&mut self.node_stack);
        assert(views(self.node_stack@) =~= Seq::<NodeView>::empty());
        proof {
            let told = self.heard@.push(Call::Accept);
            assert(told.drop_last() =~= self.heard@);
            self.heard = Ghost(told);
        }
        ParseTreeNode::non_terminal(NonTerminal::named("Grammar"), children, Span::new(0, 0, 1, 1))
    }

    fn on_error(&mut self, token: Token, span: Span) -> (r: Self::ParseError)
        ensures
            final(self).nodes() == old(self).nodes(),
            r@ == syntax_error(token@.text, span),
    {
        proof {
            let told = self.heard@.push(Call::Error(token@, span));
            assert(told.drop_last() =~= self.heard@);
            self.heard = Ghost(told);
        }
        unexpected(token, span)
    }
}

} // verus!
