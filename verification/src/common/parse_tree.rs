//! Parse trees, source locations and the atoms of a grammar text.

use crate::common::symbol_table::{NonTerminal, Terminal};
use crate::common::text::{decimal, decimal_text};
use vstd::prelude::*;

verus! {

/// Source location information: byte offsets, and a line and a column that
/// both count from 1.
#[derive(Debug, Clone, Copy, PartialEq, Eq, Hash, Structural)]
pub struct Span {
    pub start: usize,
    pub end: usize,
    pub line: usize,
    pub column: usize,
}

/// Parse error.
#[derive(Debug, PartialEq, Eq)]
pub struct ParseError {
    pub message: String,
    pub span: Option<Span>,
}

/// Parse tree node.
#[derive(Debug, PartialEq, Eq, Hash)]
pub enum ParseTreeNode {
    Terminal { token: Terminal, lexeme: String, span: Span },
    NonTerminal { symbol: NonTerminal, children: Vec<ParseTreeNode>, span: Span },
}

/// An atom of a grammar text.
#[derive(Debug, PartialEq, Eq, Hash)]
pub enum Symbol {
    /// A literal such as `"="`, quotes included.
    Literal(String),
    /// A regular expression such as `/[a-z]+/`, slashes included.
    Regex(String),
    /// An identifier such as `expression`.
    Identifier(String),
    /// The empty production.
    Epsilon,
}

/// What a parse tree node holds, as mathematical values.
pub ghost enum NodeView {
    Leaf { token: Seq<char>, lexeme: Seq<char>, span: Span },
    Inner { symbol: Seq<char>, children: Seq<NodeView>, span: Span },
}

/// What a grammar atom holds, as mathematical values.
pub ghost enum SymbolView {
    Literal(Seq<char>),
    Regex(Seq<char>),
    Identifier(Seq<char>),
    Epsilon,
}

/// What a parse error holds, as mathematical values.
pub ghost struct ParseErrorView {
    pub message: Seq<char>,
    pub span: Option<Span>,
}

/// The views of the items of a sequence, in order.
pub open spec fn views<T: View>(items: Seq<T>) -> Seq<T::V> {
    Seq::new(items.len(), |i: int| items[i]@)
}

/// What `node` holds, as mathematical values.
pub open spec fn node_view(node: ParseTreeNode) -> NodeView
    decreases node, 0nat,
{
    match node {
        ParseTreeNode::Terminal { token, lexeme, span } => NodeView::Leaf {
            token: token@,
            lexeme: lexeme@,
            span,
        },
        ParseTreeNode::NonTerminal { symbol, children, span } => NodeView::Inner {
            symbol: symbol@,
            children: prefix_view(children, children@.len()),
            span,
        },
    }
}

/// What the first `count` nodes of `nodes` hold, in order.
pub open spec fn prefix_view(nodes: Vec<ParseTreeNode>, count: nat) -> Seq<NodeView>
    decreases nodes, count,
{
    if count == 0 || count > nodes@.len() {
        Seq::empty()
    } else {
        prefix_view(nodes, (count - 1) as nat).push(node_view(nodes@[count - 1]))
    }
}

impl View for ParseTreeNode {
    type V = NodeView;

    open spec fn view(&self) -> NodeView {
        node_view(*self)
    }
}

impl View for Symbol {
    type V = SymbolView;

    open spec fn view(&self) -> SymbolView {
        match self {
            Symbol::Literal(text) => SymbolView::Literal(text@),
            Symbol::Regex(text) => SymbolView::Regex(text@),
            Symbol::Identifier(text) => SymbolView::Identifier(text@),
            Symbol::Epsilon => SymbolView::Epsilon,
        }
    }
}

impl View for ParseError {
    type V = ParseErrorView;

    open spec fn view(&self) -> ParseErrorView {
        ParseErrorView { message: self.message@, span: self.span }
    }
}

impl NodeView {
    /// The children of an inner node; a leaf has none.
    pub open spec fn children(self) -> Seq<NodeView> {
        match self {
            NodeView::Leaf { .. } => Seq::empty(),
            NodeView::Inner { children, .. } => children,
        }
    }

    /// The text of a leaf; an inner node has none.
    pub open spec fn lexeme(self) -> Seq<char> {
        match self {
            NodeView::Leaf { lexeme, .. } => lexeme,
            NodeView::Inner { .. } => Seq::empty(),
        }
    }

    /// Whether this is a leaf of the terminal named `token`.
    pub open spec fn is_terminal(self, token: Seq<char>) -> bool {
        self matches NodeView::Leaf { token: t, .. } && t == token
    }

    /// Whether this is an inner node of the non-terminal named `symbol`.
    pub open spec fn is_non_terminal(self, symbol: Seq<char>) -> bool {
        self matches NodeView::Inner { symbol: s, .. } && s == symbol
    }

    /// Whether the node has no children. A leaf has none.
    pub open spec fn is_empty(self) -> bool {
        self.children().len() == 0
    }
}

/// The first `count` nodes of `nodes`, seen as values, are the views of
/// those nodes.
pub proof fn lemma_prefix_view(nodes: Vec<ParseTreeNode>, count: nat)
    requires
        count <= nodes@.len(),
    ensures
        prefix_view(nodes, count) == views(nodes@.take(count as int)),
    decreases count,
{
    if count > 0 {
        lemma_prefix_view(nodes, (count - 1) as nat);
    }
    assert(prefix_view(nodes, count) =~= views(nodes@.take(count as int)));
}

/// The children of an inner node, seen as values, are the views of its
/// children.
pub proof fn lemma_inner_view(node: ParseTreeNode)
    requires
        node is NonTerminal,
    ensures
        node@ == (NodeView::Inner {
            symbol: node->symbol@,
            children: views(node->children@),
            span: node->NonTerminal_span,
        }),
{
    let held = node->children;
    lemma_prefix_view(held, held@.len());
    assert(held@.take(held@.len() as int) =~= held@);
}

impl Span {
    /// The span from the byte offset `start` to `end`, which begins at the
    /// given line and column.
    #[must_use]
    pub fn new(start: usize, end: usize, line: usize, column: usize) -> (r: Self)
        ensures
            r == (Span { start, end, line, column }),
    {
        Self { start, end, line, column }
    }
}

impl Clone for Symbol {
    fn clone(&self) -> (r: Self)
        ensures
            r@ == self@,
    {
        match self {
            Symbol::Literal(text) => Symbol::Literal(text.clone()),
            Symbol::Regex(text) => Symbol::Regex(text.clone()),
            Symbol::Identifier(text) => Symbol::Identifier(text.clone()),
            Symbol::Epsilon => Symbol::Epsilon,
        }
    }
}

impl Clone for ParseError {
    fn clone(&self) -> (r: Self)
        ensures
            r@ == self@,
    {
        ParseError { message: self.message.clone(), span: self.span }
    }
}

impl Clone for ParseTreeNode {
    fn clone(&self) -> (r: Self)
        ensures
            r@ == self@,
        decreases self,
    {
        match self {
            ParseTreeNode::Terminal { token, lexeme, span } => ParseTreeNode::Terminal {
                token: token.clone(),
                lexeme: lexeme.clone(),
                span: *span,
            },
            ParseTreeNode::NonTerminal { symbol, children, span } => {
                let mut copies: Vec<ParseTreeNode> = Vec::new();
                let mut i: usize = 0;
                while i < children.len()
                    invariant
                        i <= children.len(),
                        copies.len() == i,
                        forall|k: int| 0 <= k < i ==> copies@[k]@ == children@[k]@,
                        forall|k: int|
                            0 <= k < children.len() ==> decreases_to!(self => children@[k]),
                    decreases children.len() - i,
                {
                    let copy = children[i].clone();
                    copies.push(copy);
                    i += 1;
                }
                let symbol_copy = symbol.clone();
                proof {
                    lemma_inner_view(ParseTreeNode::NonTerminal { symbol: symbol_copy, children: copies, span: *span });
                    lemma_inner_view(*self);
                    assert(views(copies@) =~= views(children@));
                }
                ParseTreeNode::NonTerminal { symbol: symbol_copy, children: copies, span: *span }
            },
        }
    }
}

impl ParseTreeNode {
    /// The inner node of `symbol` over `children`.
    #[must_use]
    pub fn non_terminal(symbol: NonTerminal, children: Vec<Self>, span: Span) -> (r: Self)
        ensures
            r == (ParseTreeNode::NonTerminal { symbol, children, span }),
            r@ == (NodeView::Inner { symbol: symbol@, children: views(children@), span }),
    {
        proof {
            lemma_inner_view(ParseTreeNode::NonTerminal { symbol, children, span });
        }
        Self::NonTerminal { symbol, children, span }
    }

    /// The leaf of the terminal `token` with the text `lexeme`.
    #[must_use]
    pub fn terminal(token: Terminal, lexeme: String, span: Span) -> (r: Self)
        ensures
            r == (ParseTreeNode::Terminal { token, lexeme, span }),
            r@ == (NodeView::Leaf { token: token@, lexeme: lexeme@, span }),
    {
        Self::Terminal { token, lexeme, span }
    }

    /// Whether the node has no children. A leaf has none.
    #[must_use]
    pub fn is_empty(&self) -> (b: bool)
        ensures
            b == self@.is_empty(),
    {
        match self {
            Self::Terminal { .. } => true,
            Self::NonTerminal { symbol, children, span } => {
                proof {
                    lemma_inner_view(*self);
                }
                children.len() == 0
            },
        }
    }

    /// The text of a leaf; the empty text for an inner node.
    #[must_use]
    pub fn get_lexeme(&self) -> (r: String)
        ensures
            r@ == self@.lexeme(),
    {
        match self {
            Self::Terminal { lexeme, .. } => lexeme.clone(),
            Self::NonTerminal { .. } => String::new(),
        }
    }

    /// Whether this is a leaf of the given terminal.
    #[must_use]
    pub fn is_terminal(&self, token: &Terminal) -> (b: bool)
        ensures
            b == self@.is_terminal(token@),
    {
        match self {
            Self::Terminal { token: t, .. } => t.same(token),
            Self::NonTerminal { .. } => false,
        }
    }

    /// Whether this is an inner node of the given non-terminal.
    #[must_use]
    pub fn is_non_terminal(&self, symbol: &NonTerminal) -> (b: bool)
        ensures
            b == self@.is_non_terminal(symbol@),
    {
        match self {
            Self::Terminal { .. } => false,
            Self::NonTerminal { symbol: s, .. } => s.same(symbol),
        }
    }

    /// The children of an inner node; a leaf has none.
    #[must_use]
    pub fn get_children(&self) -> (r: &[Self])
        ensures
            views(r@) == self@.children(),
            self is NonTerminal ==> r@ == self->children@,
    {
        match self {
            Self::Terminal { .. } => {
                let none: &[Self] = &[];
                assert(views(none@) =~= self@.children());
                none
            },
            Self::NonTerminal { symbol, children, span } => {
                proof {
                    lemma_inner_view(*self);
                }
                children.as_slice()
            },
        }
    }

    /// The children of an inner node, taken out of it; a leaf has none.
    #[must_use]
    pub fn collect_children(self) -> (r: Vec<Self>)
        ensures
            views(r@) == self@.children(),
            self is NonTerminal ==> r == self->children,
    {
        match self {
            Self::Terminal { .. } => {
                let none: Vec<Self> = Vec::new();
                assert(views(none@) =~= self@.children());
                none
            },
            Self::NonTerminal { symbol, children, span } => {
                proof {
                    lemma_inner_view(ParseTreeNode::NonTerminal { symbol, children, span });
                }
                children
            },
        }
    }
}

/// The text of an atom as it stands in the grammar text.
pub open spec fn symbol_text(symbol: SymbolView) -> Seq<char> {
    match symbol {
        SymbolView::Literal(text) => text,
        SymbolView::Regex(text) => text,
        SymbolView::Identifier(text) => text,
        SymbolView::Epsilon => "EPSILON"@,
    }
}

/// The text that shows a parse error: with the line and the column of its
/// place, where it has one.
pub open spec fn error_text(error: ParseErrorView) -> Seq<char> {
    match error.span {
        Some(span) => "Parse Error at input:"@ + decimal(span.line as nat) + ":"@ + decimal(
            span.column as nat,
        ) + ", "@ + error.message,
        None => "Parse Error: "@ + error.message,
    }
}

/// The lines that show `node` behind the indentation `indent`: a leaf
/// with its terminal and its text on one line; an inner node with its
/// non-terminal, then its children two spaces deeper, then a closing line.
pub open spec fn rendered(node: NodeView, indent: Seq<char>) -> Seq<char>
    decreases node, 0nat,
{
    match node {
        NodeView::Leaf { token, lexeme, .. } => indent + "("@ + token + " \""@ + lexeme
            + "\")\n"@,
        NodeView::Inner { symbol, children, .. } => indent + "("@ + symbol + "\n"@
            + rendered_first(children, children.len(), indent + "  "@) + indent + ")\n"@,
    }
}

/// The lines that show the first `count` of `nodes` behind the indentation
/// `indent`.
pub open spec fn rendered_first(nodes: Seq<NodeView>, count: nat, indent: Seq<char>) -> Seq<char>
    decreases nodes, count,
{
    if count == 0 || count > nodes.len() {
        Seq::empty()
    } else {
        rendered_first(nodes, (count - 1) as nat, indent) + rendered(nodes[count - 1], indent)
    }
}

impl Symbol {
    /// The text of the atom as it stands in the grammar text.
    pub fn to_string(&self) -> (r: String)
        ensures
            r@ == symbol_text(self@),
    {
        match self {
            Symbol::Literal(text) => text.clone(),
            Symbol::Regex(text) => text.clone(),
            Symbol::Identifier(text) => text.clone(),
            Symbol::Epsilon => String::from_str("EPSILON"),
        }
    }
}

impl ParseError {
    /// The text that shows the error.
    pub fn to_string(&self) -> (r: String)
        ensures
            r@ == error_text(self@),
    {
        match self.span {
            Some(span) => {
                let mut text = String::from_str("Parse Error at input:");
                text.append(decimal_text(span.line).as_str());
                text.append(":");
                text.append(decimal_text(span.column).as_str());
                text.append(", ");
                text.append(self.message.as_str());
                text
            },
            None => {
                let mut text = String::from_str("Parse Error: ");
                text.append(self.message.as_str());
                text
            },
        }
    }
}

impl ParseTreeNode {
    /// Appends the lines that show the tree behind the indentation
    /// `indent`.
    pub fn render(&self, text: &mut String, indent: &str)
        ensures
            final(text)@ == old(text)@ + rendered(self@, indent@),
        decreases self,
    {
        text.append(indent);
        match self {
            ParseTreeNode::Terminal { token, lexeme, .. } => {
                text.append("(");
                text.append(token.0.as_str());
                text.append(" \"");
                text.append(lexeme.as_str());
                text.append("\")\n");
                assert(text@ =~= old(text)@ + rendered(self@, indent@));
            },
            ParseTreeNode::NonTerminal { symbol, children, .. } => {
                proof {
                    lemma_inner_view(*self);
                }
                text.append("(");
                text.append(symbol.0.as_str());
                text.append("\n");
                let mut deeper = String::from_str(indent);
                deeper.append("  ");
                let ghost head = text@;
                let ghost shown = views(children@);
                let mut i: usize = 0;
                assert(text@ =~= head + rendered_first(shown, 0, deeper@));
                while i < children.len()
                    invariant
                        i <= children.len(),
                        shown == views(children@),
                        deeper@ == indent@ + "  "@,
                        text@ == head + rendered_first(shown, i as nat, deeper@),
                        forall|k: int|
                            0 <= k < children.len() ==> decreases_to!(self => children@[k]),
                    decreases children.len() - i,
                {
                    children[i].render(text, deeper.as_str());
                    i += 1;
                    assert(text@ =~= head + rendered_first(shown, i as nat, deeper@));
                }
                text.append(indent);
                text.append(")\n");
                assert(text@ =~= old(text)@ + rendered(self@, indent@));
            },
        }
    }

    /// The lines that show the tree.
    pub fn to_string(&self) -> (r: String)
        ensures
            r@ == rendered(self@, Seq::empty()),
    {
        let mut text = String::new();
        self.render(&mut text, "");
        proof {
            reveal_strlit("");
            assert(""@ =~= Seq::<char>::empty());
            assert(text@ =~= rendered(self@, Seq::empty()));
        }
        text
    }
}

} // verus!
