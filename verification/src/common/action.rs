//! Semantic actions: what a parser does with the tokens it shifts and the
//! productions it reduces by.

use crate::common::grammar_rules::{GrammarSymbol, GrammarSymbolView};
use crate::common::parse_tree::{views, NodeView, ParseError, ParseErrorView, ParseTreeNode, Span};
use crate::common::symbol_table::NonTerminal;
use crate::compiler::lexer::{Token, TokenView};
use vstd::prelude::*;

verus! {

/// What an action is told: that it was made for a grammar with the given
/// start symbol, that a token was shifted, that a production of a
/// non-terminal with a right-hand side was reduced by, that the input was
/// accepted, or that a token at a place fits no action of the table.
pub ghost enum Call {
    Made(Seq<char>),
    Shift(TokenView),
    Reduce(Seq<char>, Seq<GrammarSymbolView>),
    Accept,
    Error(TokenView, Span),
}

/// What a parser tells while it works. A parser calls `on_shift` for each
/// token it consumes, in the order of the source, and `on_reduce` once for
/// each production it completes, in the order in which the derivation is
/// built. It ends with one call of `on_accept`, whose result is that of the
/// parse, or with one call of `on_error` for the token that no action of
/// the table fits.
///
/// An action keeps account of what it was told: each call adds itself to
/// `heard`. What the action holds besides is `consistent` with that
/// account, so that what it returns in the end is a function of the calls.
/// An action that says nothing of its account leaves all of this open.
pub trait Action {
    type ParseResult;

    type ParseError;

    /// What the action was told so far, in order.
    open spec fn heard(&self) -> Seq<Call> {
        arbitrary()
    }

    /// Whether what the action holds fits what it was told.
    open spec fn consistent(&self) -> bool {
        arbitrary()
    }

    /// Whether `result` is what the action returned when it was told last
    /// that the input was accepted.
    open spec fn delivered(&self, result: &Self::ParseResult) -> bool {
        arbitrary()
    }

    /// Whether `error` is what the action returned when it was told last
    /// of a token that fits no action.
    open spec fn reported(&self, error: &Self::ParseError) -> bool {
        arbitrary()
    }

    fn on_reduce(&mut self, non_terminal: &NonTerminal, rhs: &[GrammarSymbol])
        requires
            old(self).consistent(),
        ensures
            final(self).consistent(),
            final(self).heard() == old(self).heard().push(
                Call::Reduce(non_terminal@, views(rhs@)),
            ),
    ;

    fn on_shift(&mut self, token: Token)
        requires
            old(self).consistent(),
        ensures
            final(self).consistent(),
            final(self).heard() == old(self).heard().push(Call::Shift(token@)),
    ;

    fn on_accept(&mut self) -> (r: Self::ParseResult)
        requires
            old(self).consistent(),
        ensures
            final(self).consistent(),
            final(self).heard() == old(self).heard().push(Call::Accept),
            final(self).delivered(&r),
    ;

    fn on_error(&mut self, token: Token, span: Span) -> (r: Self::ParseError)
        requires
            old(self).consistent(),
        ensures
            final(self).consistent(),
            final(self).heard() == old(self).heard().push(Call::Error(token@, span)),
            final(self).reported(&r),
    ;
}

/// The span of a node whose place in the source is not kept.
pub open spec fn no_span() -> Span {
    Span { start: 0, end: 0, line: 1, column: 1 }
}

/// The span of the leaf for `token`: its byte offsets. Line and column are
/// not kept.
pub open spec fn leaf_span(start: usize, end: usize) -> Span {
    Span { start, end, line: 1, column: 1 }
}

/// The leaf that stands for a token of the terminal `kind` with the text
/// `text` between the byte offsets `start` and `end`.
pub open spec fn leaf_of(kind: Seq<char>, text: Seq<char>, start: usize, end: usize) -> NodeView {
    NodeView::Leaf { token: kind, lexeme: text, span: leaf_span(start, end) }
}

/// The number of nodes that a reduction by a right-hand side of `length`
/// symbols takes from a stack of `held` nodes.
pub open spec fn taken_count(held: nat, length: nat) -> nat {
    if length < held {
        length
    } else {
        held
    }
}

/// The nodes that a reduction by a right-hand side of `length` symbols
/// takes from `stack`: the topmost ones, bottom first.
pub open spec fn taken(stack: Seq<NodeView>, length: nat) -> Seq<NodeView> {
    stack.subrange(stack.len() - taken_count(stack.len(), length), stack.len() as int)
}

/// The nodes that such a reduction leaves on `stack`.
pub open spec fn kept(stack: Seq<NodeView>, length: nat) -> Seq<NodeView> {
    stack.take(stack.len() - taken_count(stack.len(), length))
}

/// `nodes`, where each node of the non-terminal `symbol` gives way to its
/// children.
pub open spec fn spliced(nodes: Seq<NodeView>, symbol: Seq<char>) -> Seq<NodeView>
    decreases nodes.len(),
{
    if nodes.len() == 0 {
        Seq::empty()
    } else if nodes.last().is_non_terminal(symbol) {
        spliced(nodes.drop_last(), symbol) + nodes.last().children()
    } else {
        spliced(nodes.drop_last(), symbol).push(nodes.last())
    }
}

/// Whether `node` stands for white space that is not there.
pub open spec fn is_empty_repetition(node: NodeView) -> bool {
    node.is_non_terminal("FactorRepetition"@) && node.is_empty()
}

/// `nodes` without the nodes that stand for white space that is not there.
pub open spec fn pruned(nodes: Seq<NodeView>) -> Seq<NodeView>
    decreases nodes.len(),
{
    if nodes.len() == 0 {
        Seq::empty()
    } else if is_empty_repetition(nodes.last()) {
        pruned(nodes.drop_last())
    } else {
        pruned(nodes.drop_last()).push(nodes.last())
    }
}

/// The inner node of `symbol` over `children`, with no place in the source.
pub open spec fn inner_of(symbol: Seq<char>, children: Seq<NodeView>) -> NodeView {
    NodeView::Inner { symbol, children, span: no_span() }
}

/// The message of the error for a token that no action of the table fits.
pub open spec fn unexpected_token(text: Seq<char>) -> Seq<char> {
    "Syntax Error: Unexpected token "@ + text
}

/// The error for a token with the text `text` at `span` that no action of
/// the table fits.
pub open spec fn syntax_error(text: Seq<char>, span: Span) -> ParseErrorView {
    ParseErrorView { message: unexpected_token(text), span: Some(span) }
}

/// Takes from `stack` the nodes of a reduction by a right-hand side of
/// `length` symbols.
pub fn take_top(stack: &mut Vec<ParseTreeNode>, length: usize) -> (top: Vec<ParseTreeNode>)
    ensures
        views(top@) == taken(views(old(stack)@), length as nat),
        views(final(stack)@) == kept(views(old(stack)@), length as nat),
{
    let held = stack.len();
    let count = if length < held {
        length
    } else {
        held
    };
    let top = stack.split_off(held - count);
    assert(views(top@) =~= taken(views(old(stack)@), length as nat));
    assert(views(stack@) =~= kept(views(old(stack)@), length as nat));
    top
}

/// Replaces each node of the non-terminal `symbol` among `nodes` by its
/// children.
pub fn splice(nodes: Vec<ParseTreeNode>, symbol: &NonTerminal) -> (r: Vec<ParseTreeNode>)
    ensures
        views(r@) == spliced(views(nodes@), symbol@),
{
    let ghost all = views(nodes@);
    let mut rest = nodes;
    let mut children: Vec<ParseTreeNode> = Vec::new();
    assert(views(children@) =~= Seq::<NodeView>::empty());
    assert(spliced(all, symbol@) =~= spliced(views(rest@), symbol@) + views(children@));
    while rest.len() > 0
        invariant
            spliced(all, symbol@) == spliced(views(rest@), symbol@) + views(children@),
        decreases rest.len(),
    {
        let ghost before = views(rest@);
        let ghost built = views(children@);
        let node = rest.pop().unwrap();
        assert(views(rest@) =~= before.drop_last());
        assert(node@ == before.last());
        let mut part: Vec<ParseTreeNode> = if node.is_non_terminal(symbol) {
            node.collect_children()
        } else {
            let mut single: Vec<ParseTreeNode> = Vec::new();
            single.push(node);
            assert(views(single@) =~= seq![node@]);
            single
        };
        let ghost middle = views(part@);
        assert(spliced(before, symbol@) =~= spliced(before.drop_last(), symbol@) + middle);
        part.append(&mut children);
        assert(views(part@) =~= middle + built);
        children = part;
        assert(spliced(all, symbol@) =~= spliced(views(rest@), symbol@) + views(children@));
    }
    assert(views(rest@) =~= Seq::<NodeView>::empty());
    assert(spliced(all, symbol@) =~= views(children@));
    children
}

/// Drops from `nodes` the nodes that stand for white space that is not
/// there.
pub fn prune(nodes: Vec<ParseTreeNode>) -> (r: Vec<ParseTreeNode>)
    ensures
        views(r@) == pruned(views(nodes@)),
{
    let ghost all = views(nodes@);
    let factor_repetition = NonTerminal::named("FactorRepetition");
    let mut rest = nodes;
    let mut children: Vec<ParseTreeNode> = Vec::new();
    assert(views(children@) =~= Seq::<NodeView>::empty());
    assert(pruned(all) =~= pruned(views(rest@)) + views(children@));
    while rest.len() > 0
        invariant
            factor_repetition@ == "FactorRepetition"@,
            pruned(all) == pruned(views(rest@)) + views(children@),
        decreases rest.len(),
    {
        let ghost before = views(rest@);
        let ghost built = views(children@);
        let node = rest.pop().unwrap();
        assert(views(rest@) =~= before.drop_last());
        assert(node@ == before.last());
        if !(node.is_non_terminal(&factor_repetition) && node.is_empty()) {
            let mut part: Vec<ParseTreeNode> = Vec::new();
            part.push(node);
            assert(views(part@) =~= seq![node@]);
            part.append(&mut children);
            assert(views(part@) =~= seq![node@] + built);
            children = part;
            assert(pruned(before) =~= pruned(before.drop_last()).push(node@));
        }
        assert(pruned(all) =~= pruned(views(rest@)) + views(children@));
    }
    assert(views(rest@) =~= Seq::<NodeView>::empty());
    assert(pruned(all) =~= views(children@));
    children
}

/// Pushes the inner node of `symbol` over `children`.
pub fn push_inner(
    stack: &mut Vec<ParseTreeNode>,
    symbol: &NonTerminal,
    children: Vec<ParseTreeNode>,
)
    ensures
        views(final(stack)@) == views(old(stack)@).push(inner_of(symbol@, views(children@))),
{
    let node = ParseTreeNode::non_terminal(symbol.clone(), children, Span::new(0, 0, 1, 1));
    stack.push(node);
    assert(views(stack@) =~= views(old(stack)@).push(inner_of(symbol@, views(children@))));
}

/// Pushes the leaf that stands for `token`.
pub fn push_leaf(stack: &mut Vec<ParseTreeNode>, token: Token)
    ensures
        views(final(stack)@) == views(old(stack)@).push(
            leaf_of(token@.kind, token@.text, token@.start, token@.end),
        ),
{
    let span = Span::new(token.start, token.end, 1, 1);
    let node = ParseTreeNode::terminal(token.kind, token.text, span);
    stack.push(node);
    assert(views(stack@) =~= views(old(stack)@).push(
        leaf_of(token@.kind, token@.text, token@.start, token@.end),
    ));
}

/// The error for `token` at `span`, which no action of the table fits.
pub fn unexpected(token: Token, span: Span) -> (r: ParseError)
    ensures
        r@ == syntax_error(token@.text, span),
{
    let mut message = String::from_str("Syntax Error: Unexpected token ");
    message.append(token.text.as_str());
    ParseError { message, span: Some(span) }
}

/// Whether `symbol` names a list: a non-terminal whose left recursion
/// stands for a repetition, so that its tree is kept as one node over all
/// the items.
pub open spec fn is_list(symbol: Seq<char>) -> bool {
    ||| symbol == "List"@
    ||| symbol == "Expression"@
    ||| symbol == "Term"@
    ||| symbol == "FactorRepetition"@
}

/// Whether `symbol` names a non-terminal that gets no node of its own: its
/// children stay where they are.
pub open spec fn is_transient(symbol: Seq<char>) -> bool {
    ||| symbol == "Grammar"@
    ||| symbol == "GrammarRepetition"@
    ||| symbol == "Value"@
    ||| symbol == "ListRepetition"@
    ||| symbol == "Atom"@
    ||| symbol == "ExpressionRepetition"@
    ||| symbol == "TermRepetition"@
}

/// The stack after a node of `symbol` is built from the nodes of a
/// right-hand side of `length` symbols. A list takes over the items of a
/// list of its kind among them; any other node leaves out white space that
/// is not there.
pub open spec fn built(stack: Seq<NodeView>, symbol: Seq<char>, length: nat) -> Seq<NodeView> {
    if is_list(symbol) {
        kept(stack, length).push(inner_of(symbol, spliced(taken(stack, length), symbol)))
    } else {
        kept(stack, length).push(inner_of(symbol, pruned(taken(stack, length))))
    }
}

/// The stack after a reduction by a production of `symbol` with `length`
/// symbols on its right-hand side.
pub open spec fn tree_reduced(stack: Seq<NodeView>, symbol: Seq<char>, length: nat) -> Seq<
    NodeView,
> {
    if is_transient(symbol) {
        stack
    } else {
        built(stack, symbol, length)
    }
}

/// Whether `symbol` names a list.
pub fn names_list(symbol: &NonTerminal) -> (b: bool)
    ensures
        b == is_list(symbol@),
{
    symbol.is_named("List") || symbol.is_named("Expression") || symbol.is_named("Term")
        || symbol.is_named("FactorRepetition")
}

/// Whether `symbol` names a non-terminal that gets no node of its own.
pub fn names_transient(symbol: &NonTerminal) -> (b: bool)
    ensures
        b == is_transient(symbol@),
{
    symbol.is_named("Grammar") || symbol.is_named("GrammarRepetition") || symbol.is_named("Value")
        || symbol.is_named("ListRepetition") || symbol.is_named("Atom") || symbol.is_named(
        "ExpressionRepetition",
    ) || symbol.is_named("TermRepetition")
}

/// Builds the node of `symbol` from the nodes of a right-hand side of
/// `length` symbols.
pub fn build_node(stack: &mut Vec<ParseTreeNode>, symbol: &NonTerminal, length: usize)
    ensures
        views(final(stack)@) == built(views(old(stack)@), symbol@, length as nat),
{
    let top = take_top(stack, length);
    let children = if names_list(symbol) {
        splice(top, symbol)
    } else {
        prune(top)
    };
    push_inner(stack, symbol, children);
}

/// The nodes without a parent that an action holds after `calls`, when it
/// builds the tree in this way.
pub open spec fn tree_nodes(calls: Seq<Call>) -> Seq<NodeView>
    decreases calls.len(),
{
    if calls.len() == 0 {
        Seq::empty()
    } else {
        let before = tree_nodes(calls.drop_last());
        match calls.last() {
            Call::Shift(token) => before.push(
                leaf_of(token.kind, token.text, token.start, token.end),
            ),
            Call::Reduce(symbol, rhs) => tree_reduced(before, symbol, rhs.len()),
            Call::Accept => Seq::empty(),
            _ => before,
        }
    }
}

/// Whether no list in `node` has a list of its own kind as a child.
pub open spec fn flat(node: NodeView) -> bool
    decreases node,
{
    match node {
        NodeView::Leaf { .. } => true,
        NodeView::Inner { symbol, children, .. } => {
            &&& is_list(symbol) ==> forall|i: int|
                0 <= i < children.len() ==> !(#[trigger] children[i]).is_non_terminal(symbol)
            &&& forall|i: int| 0 <= i < children.len() ==> flat(#[trigger] children[i])
        },
    }
}

/// Whether every node of `nodes` is flat.
pub open spec fn all_flat(nodes: Seq<NodeView>) -> bool {
    forall|i: int| 0 <= i < nodes.len() ==> flat(#[trigger] nodes[i])
}

/// Splicing flat nodes gives flat nodes, none of which is a list of the
/// spliced kind.
pub proof fn lemma_spliced_flat(nodes: Seq<NodeView>, symbol: Seq<char>)
    requires
        all_flat(nodes),
        is_list(symbol),
    ensures
        all_flat(spliced(nodes, symbol)),
        forall|i: int|
            0 <= i < spliced(nodes, symbol).len() ==> !(#[trigger] spliced(
                nodes,
                symbol,
            )[i]).is_non_terminal(symbol),
    decreases nodes.len(),
{
    if nodes.len() > 0 {
        let init = nodes.drop_last();
        let last = nodes.last();
        assert(all_flat(init)) by {
            assert forall|i: int| 0 <= i < init.len() implies flat(#[trigger] init[i]) by {
                assert(init[i] == nodes[i]);
            }
        }
        lemma_spliced_flat(init, symbol);
        assert(flat(last)) by {
            assert(last == nodes[nodes.len() - 1]);
        }
        let result = spliced(nodes, symbol);
        let head = spliced(init, symbol);
        assert forall|i: int| 0 <= i < result.len() implies flat(#[trigger] result[i])
            && !result[i].is_non_terminal(symbol) by {
            if i < head.len() {
                assert(result[i] == head[i]);
            } else if last.is_non_terminal(symbol) {
                assert(result[i] == last.children()[i - head.len()]);
            } else {
                assert(result[i] == last);
            }
        }
    }
}

/// Pruning flat nodes gives flat nodes.
pub proof fn lemma_pruned_flat(nodes: Seq<NodeView>)
    requires
        all_flat(nodes),
    ensures
        all_flat(pruned(nodes)),
    decreases nodes.len(),
{
    if nodes.len() > 0 {
        let init = nodes.drop_last();
        assert(all_flat(init)) by {
            assert forall|i: int| 0 <= i < init.len() implies flat(#[trigger] init[i]) by {
                assert(init[i] == nodes[i]);
            }
        }
        lemma_pruned_flat(init);
        assert(flat(nodes.last())) by {
            assert(nodes.last() == nodes[nodes.len() - 1]);
        }
        let result = pruned(nodes);
        let head = pruned(init);
        assert forall|i: int| 0 <= i < result.len() implies flat(#[trigger] result[i]) by {
            if i < head.len() {
                assert(result[i] == head[i]);
            }
        }
    }
}

/// A reduction leaves a stack of flat nodes flat: the tree of a list never
/// holds a list of its own kind as a child.
pub proof fn lemma_reduction_keeps_flat(stack: Seq<NodeView>, symbol: Seq<char>, length: nat)
    requires
        all_flat(stack),
    ensures
        all_flat(built(stack, symbol, length)),
        all_flat(tree_reduced(stack, symbol, length)),
{
    let top = taken(stack, length);
    let rest = kept(stack, length);
    assert(all_flat(top)) by {
        assert forall|i: int| 0 <= i < top.len() implies flat(#[trigger] top[i]) by {
            assert(top[i] == stack[stack.len() - top.len() + i]);
        }
    }
    assert(all_flat(rest)) by {
        assert forall|i: int| 0 <= i < rest.len() implies flat(#[trigger] rest[i]) by {
            assert(rest[i] == stack[i]);
        }
    }
    let result = built(stack, symbol, length);
    if is_list(symbol) {
        lemma_spliced_flat(top, symbol);
        assert(flat(inner_of(symbol, spliced(top, symbol))));
    } else {
        lemma_pruned_flat(top);
        assert(flat(inner_of(symbol, pruned(top))));
    }
    assert forall|i: int| 0 <= i < result.len() implies flat(#[trigger] result[i]) by {
        if i < rest.len() {
            assert(result[i] == rest[i]);
        }
    }
}

/// The root that holds flat nodes is flat, and so is a stack with one more
/// leaf.
pub proof fn lemma_root_and_leaf_flat(
    stack: Seq<NodeView>,
    kind: Seq<char>,
    text: Seq<char>,
    start: usize,
    end: usize,
)
    requires
        all_flat(stack),
    ensures
        flat(inner_of("Grammar"@, stack)),
        all_flat(stack.push(leaf_of(kind, text, start, end))),
{
    reveal_strlit("Grammar");
    reveal_strlit("List");
    reveal_strlit("Expression");
    reveal_strlit("Term");
    reveal_strlit("FactorRepetition");
    assert(!is_list("Grammar"@)) by {
        assert("Grammar"@.len() == 7);
        assert("Grammar"@[0] == 'G');
    }
}

/// Whatever the action is told, the nodes that it holds are flat, and so is
/// the tree that it returns: no list holds a list of its own kind as a
/// child.
pub proof fn lemma_tree_is_flat(calls: Seq<Call>)
    ensures
        all_flat(tree_nodes(calls)),
        flat(inner_of("Grammar"@, tree_nodes(calls))),
    decreases calls.len(),
{
    if calls.len() > 0 {
        lemma_tree_is_flat(calls.drop_last());
        let before = tree_nodes(calls.drop_last());
        match calls.last() {
            Call::Shift(token) => {
                lemma_root_and_leaf_flat(before, token.kind, token.text, token.start, token.end);
            },
            Call::Reduce(symbol, rhs) => {
                lemma_reduction_keeps_flat(before, symbol, rhs.len());
            },
            _ => {},
        }
    }
    let nodes = tree_nodes(calls);
    lemma_root_and_leaf_flat(nodes, Seq::empty(), Seq::empty(), 0, 0);
}

/// What the default action returns for the nodes on `stack` when the start
/// symbol is `start`: the one node of the start symbol that is left, or a
/// node of the start symbol over all that is left.
pub open spec fn accepted(stack: Seq<NodeView>, start: Seq<char>) -> NodeView {
    if stack.len() == 1 && stack[0].is_non_terminal(start) {
        stack[0]
    } else {
        inner_of(start, stack)
    }
}

/// The start symbol that the first of `calls` tells of.
pub open spec fn made_for(calls: Seq<Call>) -> Seq<char> {
    if calls.len() > 0 && calls[0] is Made {
        calls[0]->Made_0
    } else {
        Seq::empty()
    }
}

/// The tree that the default action returns is flat: no list in it holds a
/// list of its own kind as a child. Where the start symbol itself names a
/// list, this is said of the tree that is the one node left, a node of the
/// start symbol.
pub proof fn lemma_default_tree_is_flat(calls: Seq<Call>, start: Seq<char>)
    requires
        is_list(start) ==> tree_nodes(calls).len() == 1 && tree_nodes(calls)[0].is_non_terminal(
            start,
        ),
    ensures
        flat(accepted(tree_nodes(calls), start)),
{
    lemma_tree_is_flat(calls);
    let nodes = tree_nodes(calls);
    if nodes.len() == 1 && nodes[0].is_non_terminal(start) {
        assert(flat(nodes[0]));
    } else {
        assert(flat(inner_of(start, nodes)));
    }
}

/// The action that builds the parse tree for a grammar with a given start
/// symbol: a leaf for each token and an inner node for each reduction,
/// where lists are kept flat, white space that is not there is left out,
/// and the non-terminals that only group others get no node.
pub struct DefaultAction {
    node_stack: Vec<ParseTreeNode>,
    start_symbol: NonTerminal,
    heard: Ghost<Seq<Call>>,
}

impl DefaultAction {
    /// The nodes built so far that have no parent yet, bottom first.
    pub closed spec fn nodes(&self) -> Seq<NodeView> {
        views(self.node_stack@)
    }

    /// The name of the start symbol.
    pub closed spec fn start(&self) -> Seq<char> {
        self.start_symbol@
    }

    /// The action for a grammar with the start symbol `start_symbol`,
    /// before the first token.
    #[must_use]
    pub fn new(start_symbol: NonTerminal) -> (r: Self)
        ensures
            r.consistent(),
            r.heard() == seq![Call::Made(start_symbol@)],
            r.nodes() == Seq::<NodeView>::empty(),
            r.start() == start_symbol@,
    {
        let ghost told = seq![Call::Made(start_symbol@)];
        let r = Self { node_stack: Vec::new(), start_symbol, heard: Ghost(told) };
        proof {
            assert(r.nodes() =~= Seq::<NodeView>::empty());
            assert(told.drop_last() =~= Seq::<Call>::empty());
            assert(tree_nodes(told.drop_last()) =~= Seq::<NodeView>::empty());
            assert(told.last() == Call::Made(start_symbol@));
            assert(tree_nodes(told) =~= Seq::<NodeView>::empty());
        }
        r
    }
}

impl Action for DefaultAction {
    type ParseResult = ParseTreeNode;

    type ParseError = ParseError;

    closed spec fn heard(&self) -> Seq<Call> {
        self.heard@
    }

    open spec fn consistent(&self) -> bool {
        &&& self.heard().len() > 0
        &&& self.heard()[0] == Call::Made(self.start())
        &&& self.nodes() == tree_nodes(self.heard())
    }

    open spec fn delivered(&self, result: &ParseTreeNode) -> bool {
        &&& self.heard().len() > 0
        &&& self.heard().last() == Call::Accept
        &&& result@ == accepted(tree_nodes(self.heard().drop_last()), made_for(self.heard()))
    }

    open spec fn reported(&self, error: &ParseError) -> bool {
        &&& self.heard().len() > 0
        &&& self.heard().last() matches Call::Error(token, span)
        &&& error@ == syntax_error(token.text, span)
    }

    fn on_reduce(&mut self, non_terminal: &NonTerminal, rhs: &[GrammarSymbol])
        ensures
            final(self).start() == old(self).start(),
            final(self).nodes() == tree_reduced(old(self).nodes(), non_terminal@, rhs@.len()),
    {
        if !names_transient(non_terminal) {
            build_node(&mut self.node_stack, non_terminal, rhs.len());
        }
        proof {
            let told = self.heard@.push(Call::Reduce(non_terminal@, views(rhs@)));
            assert(told.drop_last() =~= self.heard@);
            assert(views(rhs@).len() == rhs@.len());
            self.heard = Ghost(told);
        }
    }

    fn on_shift(&mut self, token: Token)
        ensures
            final(self).start() == old(self).start(),
            final(self).nodes() == old(self).nodes().push(
                leaf_of(token@.kind, token@.text, token@.start, token@.end),
            ),
    {
        proof {
            let told = self.heard@.push(Call::Shift(token@));
            assert(told.drop_last() =~= self.heard@);
            self.heard = Ghost(told);
        }
        push_leaf(&mut self.node_stack, token);
    }

    fn on_accept(&mut self) -> (r: Self::ParseResult)
        ensures
            final(self).start() == old(self).start(),
            final(self).nodes() == Seq::<NodeView>::empty(),
            r@ == accepted(old(self).nodes(), old(self).start()),
    {
        let mut children: Vec<ParseTreeNode> = Vec::new();
        children.append(&mut self.node_stack);
        assert(views(self.node_stack@) =~= Seq::<NodeView>::empty());
        proof {
            let told = self.heard@.push(Call::Accept);
            assert(told.drop_last() =~= self.heard@);
            assert(told[0] == self.heard@[0]);
            self.heard = Ghost(told);
        }
        if children.len() == 1 && children[0].is_non_terminal(&self.start_symbol) {
            children.pop().unwrap()
        } else {
            ParseTreeNode::non_terminal(self.start_symbol.clone(), children, Span::new(0, 0, 1, 1))
        }
    }

    fn on_error(&mut self, token: Token, span: Span) -> (r: Self::ParseError)
        ensures
            final(self).start() == old(self).start(),
            final(self).nodes() == old(self).nodes(),
            r@ == syntax_error(token@.text, span),
    {
        proof {
            let told = self.heard@.push(Call::Error(token@, span));
            assert(told.drop_last() =~= self.heard@);
            self.heard = Ghost(told);
        }
        unexpected(token, span)
    }
}

} // verus!
