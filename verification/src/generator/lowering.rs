//! Lowering the constructs of the notation to plain rules: a group gives
//! way to its alternatives, and an option or a repetition becomes a rule of
//! its own.

use crate::common::parse_tree::{
    lemma_inner_view, views, NodeView, ParseTreeNode, Symbol, SymbolView,
};
use crate::common::symbol_table::{NonTerminal, Terminal};
use crate::common::text::{decimal, decimal_text};
use crate::generator::classification::{Production, ProductionView};
use crate::generator::parse_tree::{
    alternative_views, alternatives_of, atom_of, atoms_of, factors_of, not_a_leaf, symbol_of,
    terms_of,
};
use vstd::prelude::*;

verus! {

/// The name of the rule that stands for the construct with the number
/// `number` within the rule of `lhs`. No identifier of a grammar text reads
/// like it.
pub open spec fn fresh_name(lhs: Seq<char>, number: nat) -> Seq<char> {
    lhs + seq!['#'] + decimal(number)
}

/// `head` followed by each of `tails`.
pub open spec fn extended(head: Seq<SymbolView>, tails: Seq<Seq<SymbolView>>) -> Seq<
    Seq<SymbolView>,
> {
    Seq::new(tails.len(), |j: int| head + tails[j])
}

/// Each of `heads` followed by each of `tails`: for the first head all the
/// tails, then for the second, and so on.
pub open spec fn crossed(heads: Seq<Seq<SymbolView>>, tails: Seq<Seq<SymbolView>>) -> Seq<
    Seq<SymbolView>,
>
    decreases heads.len(),
{
    if heads.len() == 0 {
        Seq::empty()
    } else {
        crossed(heads.drop_last(), tails) + extended(heads.last(), tails)
    }
}

/// What lowering gives: the alternatives that stand in place of what was
/// lowered, the rules that were made on the way, and the number of the
/// next construct.
pub ghost struct LoweredView {
    pub alternatives: Seq<Seq<SymbolView>>,
    pub extra: Seq<ProductionView>,
    pub next: nat,
}

/// The alternatives of the rule that stands for an option or a repetition
/// of `inner`. An option is one of `inner` or nothing. A repetition is
/// itself followed by one of `inner`, or nothing.
pub open spec fn construct_alternatives(
    repeats: bool,
    own: SymbolView,
    inner: Seq<Seq<SymbolView>>,
) -> Seq<Seq<SymbolView>> {
    if repeats {
        extended(seq![own], inner).push(seq![SymbolView::Epsilon])
    } else {
        inner.push(seq![SymbolView::Epsilon])
    }
}

/// What stands in place of an atom. A leaf stands for itself. A group
/// gives way to the alternatives of its expression. An option or a
/// repetition becomes a lowered rule with a name of its own, and the name
/// stands in its place.
pub open spec fn lowered_atom(node: NodeView, lhs: Seq<char>, next: nat) -> Result<
    LoweredView,
    Seq<char>,
>
    decreases node, 0nat,
{
    match node {
        NodeView::Leaf { .. } => match symbol_of(node) {
            Ok(symbol) => Ok(
                LoweredView { alternatives: seq![seq![symbol]], extra: Seq::empty(), next },
            ),
            Err(message) => Err(message),
        },
        NodeView::Inner { symbol, children, .. } => {
            if symbol != "Group"@ && symbol != "Optional"@ && symbol != "Repetition"@ {
                Err(not_a_leaf(symbol))
            } else if children.len() != 3 {
                Err("Construct holds no expression"@)
            } else if symbol == "Group"@ {
                lowered_expression(children[1], lhs, next)
            } else if next >= usize::MAX {
                Err("Too many constructs"@)
            } else {
                match lowered_expression(children[1], lhs, next + 1) {
                    Err(message) => Err(message),
                    Ok(inner) => Ok(
                        LoweredView {
                            alternatives: seq![
                                seq![SymbolView::Identifier(fresh_name(lhs, next))],
                            ],
                            extra: inner.extra.push(
                                ProductionView {
                                    lhs: fresh_name(lhs, next),
                                    alternatives: construct_alternatives(
                                        symbol == "Repetition"@,
                                        SymbolView::Identifier(fresh_name(lhs, next)),
                                        inner.alternatives,
                                    ),
                                    lowered: true,
                                },
                            ),
                            next: inner.next,
                        },
                    ),
                }
            }
        },
    }
}

/// What stands in place of a factor: what stands in place of its atom,
/// which is its first child, or its second where the first is white space
/// before the atom.
pub open spec fn lowered_factor(node: NodeView, lhs: Seq<char>, next: nat) -> Result<
    LoweredView,
    Seq<char>,
>
    decreases node, 0nat,
{
    match node {
        NodeView::Leaf { .. } => Err("Collect atom call on non-factor node"@),
        NodeView::Inner { symbol, children, .. } => {
            if symbol != "Factor"@ {
                Err("Collect atom call on non-factor node"@)
            } else if children.len() == 0 {
                Err("Factor has no children"@)
            } else if !children[0].is_non_terminal("FactorRepetition"@) {
                lowered_atom(children[0], lhs, next)
            } else if children.len() == 1 {
                Err("Factor has no atom"@)
            } else {
                lowered_atom(children[1], lhs, next)
            }
        },
    }
}

/// What stands in place of the first `count` of the factors `nodes`, one
/// after the other: each alternative of the factors before is followed by
/// each alternative of the next.
pub open spec fn lowered_factors(nodes: Seq<NodeView>, count: nat, lhs: Seq<char>, next: nat) -> Result<
    LoweredView,
    Seq<char>,
>
    decreases nodes, count,
{
    if count == 0 || count > nodes.len() {
        Ok(LoweredView { alternatives: seq![Seq::empty()], extra: Seq::empty(), next })
    } else {
        match lowered_factors(nodes, (count - 1) as nat, lhs, next) {
            Err(message) => Err(message),
            Ok(done) => match lowered_factor(nodes[count - 1], lhs, done.next) {
                Err(message) => Err(message),
                Ok(factor) => Ok(
                    LoweredView {
                        alternatives: crossed(done.alternatives, factor.alternatives),
                        extra: done.extra + factor.extra,
                        next: factor.next,
                    },
                ),
            },
        }
    }
}

/// What stands in place of a term: the empty production, or what stands in
/// place of its factors.
pub open spec fn lowered_term(node: NodeView, lhs: Seq<char>, next: nat) -> Result<
    LoweredView,
    Seq<char>,
>
    decreases node, 0nat,
{
    match node {
        NodeView::Leaf { .. } => Err("Collect factors call on non-term node"@),
        NodeView::Inner { symbol, children, .. } => {
            if symbol != "Term"@ {
                Err("Collect factors call on non-term node"@)
            } else if children.len() == 1 && children[0].is_terminal("Empty"@) {
                Ok(
                    LoweredView {
                        alternatives: seq![seq![SymbolView::Epsilon]],
                        extra: Seq::empty(),
                        next,
                    },
                )
            } else if children.len() > 0 && children[0].is_non_terminal("Factor"@) {
                lowered_factors(children, children.len(), lhs, next)
            } else {
                Err("Unexpected children in term"@)
            }
        },
    }
}

/// What stands in place of the first `count` of the children `nodes` of an
/// expression: the alternatives of each term, in order. A `Pipe` leaf
/// between them adds nothing; any other child is an error.
pub open spec fn lowered_terms(nodes: Seq<NodeView>, count: nat, lhs: Seq<char>, next: nat) -> Result<
    LoweredView,
    Seq<char>,
>
    decreases nodes, count,
{
    if count == 0 || count > nodes.len() {
        Ok(LoweredView { alternatives: Seq::empty(), extra: Seq::empty(), next })
    } else {
        match lowered_terms(nodes, (count - 1) as nat, lhs, next) {
            Err(message) => Err(message),
            Ok(done) => {
                let child = nodes[count - 1];
                if child.is_non_terminal("Term"@) {
                    match lowered_term(child, lhs, done.next) {
                        Err(message) => Err(message),
                        Ok(term) => Ok(
                            LoweredView {
                                alternatives: done.alternatives + term.alternatives,
                                extra: done.extra + term.extra,
                                next: term.next,
                            },
                        ),
                    }
                } else if child.is_terminal("Pipe"@) {
                    Ok(done)
                } else {
                    Err("Unexpected child in expression"@)
                }
            },
        }
    }
}

/// What stands in place of an expression within the rule of `lhs`, where
/// `next` is the number of the next construct: the alternatives of the
/// expression, with a name in place of each option and repetition, and the
/// rules of those names.
pub open spec fn lowered_expression(node: NodeView, lhs: Seq<char>, next: nat) -> Result<
    LoweredView,
    Seq<char>,
>
    decreases node, 0nat,
{
    match node {
        NodeView::Leaf { .. } => Err("Collect terms call on non-expression node"@),
        NodeView::Inner { symbol, children, .. } => {
            if symbol != "Expression"@ {
                Err("Collect terms call on non-expression node"@)
            } else if children.len() == 0 {
                Err("Expression has no children"@)
            } else {
                lowered_terms(children, children.len(), lhs, next)
            }
        },
    }
}

/// What lowering gives.
pub struct Lowered {
    pub alternatives: Vec<Vec<Symbol>>,
    pub extra: Vec<Production>,
    pub next: usize,
}

impl View for Lowered {
    type V = LoweredView;

    open spec fn view(&self) -> LoweredView {
        LoweredView {
            alternatives: alternative_views(self.alternatives@),
            extra: views(self.extra@),
            next: self.next as nat,
        }
    }
}

/// What a result holds: what was lowered by its view, a message by its
/// text.
pub open spec fn lowered_result(r: Result<Lowered, String>) -> Result<LoweredView, Seq<char>> {
    match r {
        Ok(lowered) => Ok(lowered@),
        Err(message) => Err(message@),
    }
}

/// The atoms of `head` followed by those of `tail`.
fn joined(head: &Vec<Symbol>, tail: &Vec<Symbol>) -> (r: Vec<Symbol>)
    ensures
        views(r@) == views(head@) + views(tail@),
{
    let mut all: Vec<Symbol> = Vec::new();
    let mut i: usize = 0;
    assert(views(all@) =~= views(head@).take(0));
    while i < head.len()
        invariant
            i <= head.len(),
            views(all@) == views(head@).take(i as int),
        decreases head.len() - i,
    {
        let ghost before = views(all@);
        let symbol = head[i].clone();
        all.push(symbol);
        assert(views(all@) =~= before.push(symbol@));
        assert(views(all@) =~= views(head@).take(i + 1));
        i += 1;
    }
    assert(views(head@).take(i as int) =~= views(head@));
    let mut j: usize = 0;
    assert(views(all@) =~= views(head@) + views(tail@).take(0));
    while j < tail.len()
        invariant
            j <= tail.len(),
            views(all@) == views(head@) + views(tail@).take(j as int),
        decreases tail.len() - j,
    {
        let ghost before = views(all@);
        let symbol = tail[j].clone();
        all.push(symbol);
        assert(views(all@) =~= before.push(symbol@));
        assert(views(all@) =~= views(head@) + views(tail@).take(j + 1));
        j += 1;
    }
    assert(views(tail@).take(j as int) =~= views(tail@));
    all
}

/// No rules.
fn no_rules() -> (r: Vec<Production>)
    ensures
        views(r@) == Seq::<ProductionView>::empty(),
{
    let rules: Vec<Production> = Vec::new();
    assert(views(rules@) =~= Seq::<ProductionView>::empty());
    rules
}

/// `head` followed by each of `tails`.
fn extend(head: &Vec<Symbol>, tails: &Vec<Vec<Symbol>>) -> (r: Vec<Vec<Symbol>>)
    ensures
        alternative_views(r@) == extended(views(head@), alternative_views(tails@)),
{
    let mut all: Vec<Vec<Symbol>> = Vec::new();
    let mut j: usize = 0;
    while j < tails.len()
        invariant
            j <= tails.len(),
            all.len() == j,
            forall|k: int|
                0 <= k < j ==> views(#[trigger] all@[k]@) == views(head@) + views(tails@[k]@),
        decreases tails.len() - j,
    {
        all.push(joined(head, &tails[j]));
        j += 1;
    }
    assert(alternative_views(all@) =~= extended(views(head@), alternative_views(tails@)));
    all
}

/// Each of `heads` followed by each of `tails`.
fn cross(heads: &Vec<Vec<Symbol>>, tails: &Vec<Vec<Symbol>>) -> (r: Vec<Vec<Symbol>>)
    ensures
        alternative_views(r@) == crossed(alternative_views(heads@), alternative_views(tails@)),
{
    let ghost left = alternative_views(heads@);
    let ghost right = alternative_views(tails@);
    let mut all: Vec<Vec<Symbol>> = Vec::new();
    let mut i: usize = 0;
    assert(alternative_views(all@) =~= crossed(left.take(0), right));
    while i < heads.len()
        invariant
            i <= heads.len(),
            left == alternative_views(heads@),
            right == alternative_views(tails@),
            alternative_views(all@) == crossed(left.take(i as int), right),
        decreases heads.len() - i,
    {
        let ghost before = alternative_views(all@);
        let mut more = extend(&heads[i], tails);
        let ghost added = alternative_views(more@);
        all.append(&mut more);
        proof {
            assert(left.take(i + 1).drop_last() =~= left.take(i as int));
            assert(left.take(i + 1).last() == views(heads@[i as int]@));
            assert(alternative_views(all@) =~= before + added);
        }
        i += 1;
    }
    assert(left.take(i as int) =~= left);
    all
}

/// One alternative that holds `symbol` alone.
fn single(symbol: Symbol) -> (r: Vec<Vec<Symbol>>)
    ensures
        alternative_views(r@) == seq![seq![symbol@]],
{
    let mut atoms: Vec<Symbol> = Vec::new();
    atoms.push(symbol);
    assert(views(atoms@) =~= seq![symbol@]);
    let mut alternatives: Vec<Vec<Symbol>> = Vec::new();
    alternatives.push(atoms);
    assert(alternative_views(alternatives@) =~= seq![seq![symbol@]]);
    alternatives
}

/// The name of the rule that stands for the construct with the number
/// `number` within the rule of `lhs`.
pub fn fresh(lhs: &String, number: usize) -> (r: String)
    ensures
        r@ == fresh_name(lhs@, number as nat),
{
    let mut name = lhs.clone();
    name.append("#");
    name.append(decimal_text(number).as_str());
    proof {
        reveal_strlit("#");
        assert("#"@ =~= seq!['#']);
    }
    name
}

/// Lowers an atom within the rule of `lhs`.
pub fn lower_atom(node: &ParseTreeNode, lhs: &String, next: usize) -> (r: Result<Lowered, String>)
    ensures
        lowered_result(r) == lowered_atom(node@, lhs@, next as nat),
    decreases node, 0nat,
{
    match node {
        ParseTreeNode::Terminal { .. } => match node.to_symbol() {
            Ok(symbol) => Ok(Lowered { alternatives: single(symbol), extra: no_rules(), next }),
            Err(message) => Err(message),
        },
        ParseTreeNode::NonTerminal { symbol, children, .. } => {
            proof {
                lemma_inner_view(*node);
            }
            let group = symbol.is_named("Group");
            let optional = symbol.is_named("Optional");
            let repetition = symbol.is_named("Repetition");
            if !group && !optional && !repetition {
                let mut message = String::from_str(
                    "Cannot convert non-terminal symbol to symbol: ",
                );
                message.append(symbol.0.as_str());
                return Err(message);
            }
            if children.len() != 3 {
                return Err(String::from_str("Construct holds no expression"));
            }
            assert(views(children@)[1] == children@[1]@);
            if group {
                return lower_expression(&children[1], lhs, next);
            }
            if next == usize::MAX {
                return Err(String::from_str("Too many constructs"));
            }
            match lower_expression(&children[1], lhs, next + 1) {
                Err(message) => Err(message),
                Ok(inner) => {
                    let Lowered { alternatives, extra, next: after } = inner;
                    let name = fresh(lhs, next);
                    let ghost own = SymbolView::Identifier(name@);
                    let ghost held = alternative_views(alternatives@);
                    let mut own_alternatives = if repetition {
                        let mut head: Vec<Symbol> = Vec::new();
                        head.push(Symbol::Identifier(name.clone()));
                        assert(views(head@) =~= seq![own]);
                        extend(&head, &alternatives)
                    } else {
                        alternatives
                    };
                    let ghost before = alternative_views(own_alternatives@);
                    let mut nothing: Vec<Symbol> = Vec::new();
                    nothing.push(Symbol::Epsilon);
                    assert(views(nothing@) =~= seq![SymbolView::Epsilon]);
                    own_alternatives.push(nothing);
                    assert(alternative_views(own_alternatives@) =~= before.push(
                        seq![SymbolView::Epsilon],
                    ));
                    let mut rules = extra;
                    let ghost made = views(rules@);
                    let rule = Production {
                        lhs: name.clone(),
                        alternatives: own_alternatives,
                        lowered: true,
                    };
                    rules.push(rule);
                    assert(views(rules@) =~= made.push(rule@));
                    Ok(
                        Lowered {
                            alternatives: single(Symbol::Identifier(name)),
                            extra: rules,
                            next: after,
                        },
                    )
                },
            }
        },
    }
}

/// Lowers a factor within the rule of `lhs`.
pub fn lower_factor(node: &ParseTreeNode, lhs: &String, next: usize) -> (r: Result<Lowered, String>)
    ensures
        lowered_result(r) == lowered_factor(node@, lhs@, next as nat),
    decreases node, 1nat,
{
    match node {
        ParseTreeNode::Terminal { .. } => Err(
            String::from_str("Collect atom call on non-factor node"),
        ),
        ParseTreeNode::NonTerminal { symbol, children, .. } => {
            proof {
                lemma_inner_view(*node);
            }
            if !symbol.is_named("Factor") {
                return Err(String::from_str("Collect atom call on non-factor node"));
            }
            if children.len() == 0 {
                return Err(String::from_str("Factor has no children"));
            }
            assert(views(children@)[0] == children@[0]@);
            if !children[0].is_non_terminal(&NonTerminal::named("FactorRepetition")) {
                return lower_atom(&children[0], lhs, next);
            }
            if children.len() == 1 {
                return Err(String::from_str("Factor has no atom"));
            }
            assert(views(children@)[1] == children@[1]@);
            lower_atom(&children[1], lhs, next)
        },
    }
}

/// Lowers a term within the rule of `lhs`.
pub fn lower_term(node: &ParseTreeNode, lhs: &String, next: usize) -> (r: Result<Lowered, String>)
    ensures
        lowered_result(r) == lowered_term(node@, lhs@, next as nat),
    decreases node, 2nat,
{
    match node {
        ParseTreeNode::Terminal { .. } => Err(
            String::from_str("Collect factors call on non-term node"),
        ),
        ParseTreeNode::NonTerminal { symbol, children, .. } => {
            proof {
                lemma_inner_view(*node);
            }
            if !symbol.is_named("Term") {
                return Err(String::from_str("Collect factors call on non-term node"));
            }
            let ghost shown = views(children@);
            if children.len() == 1 && children[0].is_terminal(&Terminal::named("Empty")) {
                return Ok(
                    Lowered { alternatives: single(Symbol::Epsilon), extra: no_rules(), next },
                );
            }
            if !(children.len() > 0 && children[0].is_non_terminal(&NonTerminal::named("Factor"))) {
                return Err(String::from_str("Unexpected children in term"));
            }
            let mut start: Vec<Vec<Symbol>> = Vec::new();
            let nothing: Vec<Symbol> = Vec::new();
            assert(views(nothing@) =~= Seq::<SymbolView>::empty());
            start.push(nothing);
            assert(alternative_views(start@) =~= seq![Seq::<SymbolView>::empty()]);
            let mut outcome: Result<Lowered, String> = Ok(
                Lowered { alternatives: start, extra: no_rules(), next },
            );
            let mut i: usize = 0;
            while i < children.len()
                invariant
                    i <= children.len(),
                    shown == views(children@),
                    lowered_result(outcome) == lowered_factors(shown, i as nat, lhs@, next as nat),
                    forall|k: int| 0 <= k < children.len() ==> decreases_to!(node => children@[k]),
                decreases children.len() - i,
            {
                assert(shown[i as int] == children@[i as int]@);
                outcome = match outcome {
                    Err(message) => Err(message),
                    Ok(done) => match lower_factor(&children[i], lhs, done.next) {
                        Err(message) => Err(message),
                        Ok(factor) => {
                            let Lowered { alternatives, extra, next: _ } = done;
                            let Lowered { alternatives: tails, extra: more, next: after } = factor;
                            let mut rules = extra;
                            let mut added = more;
                            let ghost left = views(rules@);
                            let ghost right = views(added@);
                            rules.append(&mut added);
                            assert(views(rules@) =~= left + right);
                            Ok(
                                Lowered {
                                    alternatives: cross(&alternatives, &tails),
                                    extra: rules,
                                    next: after,
                                },
                            )
                        },
                    },
                };
                i += 1;
            }
            outcome
        },
    }
}

/// Lowers an expression within the rule of `lhs`, where `next` is the
/// number of the next construct.
pub fn lower_expression(node: &ParseTreeNode, lhs: &String, next: usize) -> (r: Result<
    Lowered,
    String,
>)
    ensures
        lowered_result(r) == lowered_expression(node@, lhs@, next as nat),
    decreases node, 3nat,
{
    match node {
        ParseTreeNode::Terminal { .. } => Err(
            String::from_str("Collect terms call on non-expression node"),
        ),
        ParseTreeNode::NonTerminal { symbol, children, .. } => {
            proof {
                lemma_inner_view(*node);
            }
            if !symbol.is_named("Expression") {
                return Err(String::from_str("Collect terms call on non-expression node"));
            }
            if children.len() == 0 {
                return Err(String::from_str("Expression has no children"));
            }
            let ghost shown = views(children@);
            let term = NonTerminal::named("Term");
            let pipe = Terminal::named("Pipe");
            let mut outcome: Result<Lowered, String> = Ok(
                Lowered { alternatives: Vec::new(), extra: no_rules(), next },
            );
            proof {
                assert(alternative_views(outcome->Ok_0.alternatives@) =~= Seq::<
                    Seq<SymbolView>,
                >::empty());
            }
            let mut i: usize = 0;
            while i < children.len()
                invariant
                    i <= children.len(),
                    shown == views(children@),
                    term@ == "Term"@,
                    pipe@ == "Pipe"@,
                    lowered_result(outcome) == lowered_terms(shown, i as nat, lhs@, next as nat),
                    forall|k: int| 0 <= k < children.len() ==> decreases_to!(node => children@[k]),
                decreases children.len() - i,
            {
                assert(shown[i as int] == children@[i as int]@);
                let child = &children[i];
                outcome = match outcome {
                    Err(message) => Err(message),
                    Ok(done) => {
                        if child.is_non_terminal(&term) {
                            match lower_term(child, lhs, done.next) {
                                Err(message) => Err(message),
                                Ok(lowered) => {
                                    let Lowered { alternatives, extra, next: _ } = done;
                                    let Lowered { alternatives: more, extra: made, next: after } =
                                        lowered;
                                    let mut all = alternatives;
                                    let mut added = more;
                                    let ghost a = alternative_views(all@);
                                    let ghost b = alternative_views(added@);
                                    all.append(&mut added);
                                    assert(alternative_views(all@) =~= a + b);
                                    let mut rules = extra;
                                    let mut new_rules = made;
                                    let ghost left = views(rules@);
                                    let ghost right = views(new_rules@);
                                    rules.append(&mut new_rules);
                                    assert(views(rules@) =~= left + right);
                                    Ok(Lowered { alternatives: all, extra: rules, next: after })
                                },
                            }
                        } else if child.is_terminal(&pipe) {
                            Ok(done)
                        } else {
                            Err(String::from_str("Unexpected child in expression"))
                        }
                    },
                };
                i += 1;
            }
            outcome
        },
    }
}

/// What lowering gives where nothing is lowered: the given alternatives,
/// no rules, and the number of the next construct as it was.
pub open spec fn plain(alternatives: Seq<Seq<SymbolView>>, next: nat) -> LoweredView {
    LoweredView { alternatives, extra: Seq::empty(), next }
}

/// A factor whose atom is a leaf is lowered to its atom.
pub proof fn lemma_plain_factor(node: NodeView, lhs: Seq<char>, next: nat)
    requires
        atom_of(node) is Ok,
    ensures
        lowered_factor(node, lhs, next) == Ok::<LoweredView, Seq<char>>(
            plain(seq![seq![atom_of(node)->Ok_0]], next),
        ),
{
    let children = node.children();
    let atom = if !children[0].is_non_terminal("FactorRepetition"@) {
        children[0]
    } else {
        children[1]
    };
    assert(symbol_of(atom) is Ok);
    assert(atom is Leaf);
}

/// Factors whose atoms are leaves are lowered to one alternative: their
/// atoms in order.
pub proof fn lemma_plain_factors(nodes: Seq<NodeView>, count: nat, lhs: Seq<char>, next: nat)
    requires
        count <= nodes.len(),
        atoms_of(nodes.take(count as int)) is Ok,
    ensures
        lowered_factors(nodes, count, lhs, next) == Ok::<LoweredView, Seq<char>>(
            plain(seq![atoms_of(nodes.take(count as int))->Ok_0], next),
        ),
    decreases count,
{
    if count > 0 {
        let now = nodes.take(count as int);
        let before = nodes.take(count - 1);
        assert(now.drop_last() =~= before);
        assert(now.last() == nodes[count - 1]);
        lemma_plain_factors(nodes, (count - 1) as nat, lhs, next);
        lemma_plain_factor(nodes[count - 1], lhs, next);
        let atoms = atoms_of(before)->Ok_0;
        let atom = atom_of(nodes[count - 1])->Ok_0;
        let heads = seq![atoms];
        let tails = seq![seq![atom]];
        assert(heads.drop_last() =~= Seq::<Seq<SymbolView>>::empty());
        assert(crossed(heads.drop_last(), tails) =~= Seq::<Seq<SymbolView>>::empty());
        assert(atoms + seq![atom] =~= atoms.push(atom));
        assert(extended(atoms, tails)[0] == atoms.push(atom));
        assert(extended(atoms, tails) =~= seq![atoms.push(atom)]);
        assert(crossed(heads, tails) =~= seq![atoms.push(atom)]);
        assert(Seq::<ProductionView>::empty() + Seq::<ProductionView>::empty() =~= Seq::<
            ProductionView,
        >::empty());
    } else {
        assert(nodes.take(0) =~= Seq::<NodeView>::empty());
    }
}

/// A term whose atoms are leaves is lowered to one alternative: its atoms.
pub proof fn lemma_plain_term(node: NodeView, lhs: Seq<char>, next: nat)
    requires
        factors_of(node) is Ok,
    ensures
        lowered_term(node, lhs, next) == Ok::<LoweredView, Seq<char>>(
            plain(seq![factors_of(node)->Ok_0], next),
        ),
{
    let children = node.children();
    if !(children.len() == 1 && children[0].is_terminal("Empty"@)) {
        assert(children.take(children.len() as int) =~= children);
        lemma_plain_factors(children, children.len(), lhs, next);
    }
}

/// The children of an expression whose atoms are leaves are lowered to
/// the alternatives of its terms.
pub proof fn lemma_plain_terms(nodes: Seq<NodeView>, count: nat, lhs: Seq<char>, next: nat)
    requires
        count <= nodes.len(),
        alternatives_of(nodes.take(count as int)) is Ok,
    ensures
        lowered_terms(nodes, count, lhs, next) == Ok::<LoweredView, Seq<char>>(
            plain(alternatives_of(nodes.take(count as int))->Ok_0, next),
        ),
    decreases count,
{
    if count > 0 {
        let now = nodes.take(count as int);
        let before = nodes.take(count - 1);
        assert(now.drop_last() =~= before);
        assert(now.last() == nodes[count - 1]);
        lemma_plain_terms(nodes, (count - 1) as nat, lhs, next);
        let child = nodes[count - 1];
        let done = alternatives_of(before)->Ok_0;
        if child.is_non_terminal("Term"@) {
            lemma_plain_term(child, lhs, next);
            assert(done + seq![factors_of(child)->Ok_0] =~= done.push(factors_of(child)->Ok_0));
            assert(Seq::<ProductionView>::empty() + Seq::<ProductionView>::empty() =~= Seq::<
                ProductionView,
            >::empty());
        }
    } else {
        assert(nodes.take(0) =~= Seq::<NodeView>::empty());
    }
}

/// An expression without groups, options and repetitions is lowered to
/// its alternatives as they stand: no rule is made, and no number is used.
pub proof fn lemma_plain_expression(node: NodeView, lhs: Seq<char>, next: nat)
    requires
        terms_of(node) is Ok,
    ensures
        lowered_expression(node, lhs, next) == Ok::<LoweredView, Seq<char>>(
            plain(terms_of(node)->Ok_0, next),
        ),
{
    let children = node.children();
    assert(children.take(children.len() as int) =~= children);
    lemma_plain_terms(children, children.len(), lhs, next);
}

} // verus!
