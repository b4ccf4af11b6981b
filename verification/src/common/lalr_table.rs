//! The LALR(1) construction of the `lalr` crate, over grammars whose
//! symbols and productions are numbers.

use vstd::prelude::*;

verus! {

/// A symbol of a numbered grammar: a terminal or a non-terminal, by its
/// number.
#[derive(Debug, Clone, Copy, PartialEq, Eq, Structural)]
pub struct RawSymbol {
    pub terminal: bool,
    pub index: usize,
}

/// An action of a table: to reduce by the production of the given number,
/// to shift and go to the state of the given number, or to accept.
#[derive(Debug, Clone, Copy, PartialEq, Eq, Structural)]
pub enum RawAction {
    Reduce(usize),
    Shift(usize),
    Accept,
}

/// The production `rule` with the dot before the symbol at `position`.
#[derive(Debug, Clone, Copy, PartialEq, Eq, Structural)]
pub struct RawItem {
    pub rule: usize,
    pub position: usize,
}

/// What the hooks of a table answer: for each production and each
/// terminal, or the end of the input, whether the table may reduce by the
/// production there, and the priority of the production there.
pub struct Decisions {
    pub reduce: Vec<Vec<bool>>,
    pub reduce_at_end: Vec<bool>,
    pub priority: Vec<Vec<i32>>,
    pub priority_at_end: Vec<i32>,
}

/// A state of a table as the construction gives it: the action at the end
/// of the input, the actions by terminal and the next states by
/// non-terminal.
#[derive(Debug, PartialEq, Eq)]
pub struct RawState {
    pub eof: Option<RawAction>,
    pub lookahead: Vec<(usize, RawAction)>,
    pub goto: Vec<(usize, usize)>,
}

/// A conflict as the construction reports it: the items of the state, the
/// terminal at which it occurs, or none for the end of the input, and the
/// production that wants to reduce. In a conflict between two reductions
/// `second` is the other production; in a conflict with a shift there is
/// none.
#[derive(Debug, PartialEq, Eq)]
pub struct RawConflict {
    pub items: Vec<RawItem>,
    pub token: Option<usize>,
    pub first: usize,
    pub second: Option<usize>,
}

/// A production of a numbered grammar.
pub ghost struct RawRuleView {
    pub lhs: usize,
    pub rhs: Seq<RawSymbol>,
    pub number: usize,
}

/// The answers of the hooks as mathematical values.
pub ghost struct DecisionsView {
    pub reduce: Seq<Seq<bool>>,
    pub reduce_at_end: Seq<bool>,
    pub priority: Seq<Seq<i32>>,
    pub priority_at_end: Seq<i32>,
}

/// A state of a table as a mathematical value.
pub ghost struct RawStateView {
    pub eof: Option<RawAction>,
    pub lookahead: Seq<(usize, RawAction)>,
    pub goto: Seq<(usize, usize)>,
}

/// A conflict as a mathematical value.
pub ghost struct RawConflictView {
    pub items: Seq<RawItem>,
    pub token: Option<usize>,
    pub first: usize,
    pub second: Option<usize>,
}

impl View for Decisions {
    type V = DecisionsView;

    open spec fn view(&self) -> DecisionsView {
        DecisionsView {
            reduce: Seq::new(self.reduce@.len(), |i: int| self.reduce@[i]@),
            reduce_at_end: self.reduce_at_end@,
            priority: Seq::new(self.priority@.len(), |i: int| self.priority@[i]@),
            priority_at_end: self.priority_at_end@,
        }
    }
}

impl View for RawState {
    type V = RawStateView;

    open spec fn view(&self) -> RawStateView {
        RawStateView { eof: self.eof, lookahead: self.lookahead@, goto: self.goto@ }
    }
}

impl View for RawConflict {
    type V = RawConflictView;

    open spec fn view(&self) -> RawConflictView {
        RawConflictView {
            items: self.items@,
            token: self.token,
            first: self.first,
            second: self.second,
        }
    }
}

/// `lalr::Grammar`: a context-free grammar. What a value holds is not
/// seen; `held_rules` and `held_start` name it.
#[verifier::external_type_specification]
#[verifier::external_body]
#[verifier::reject_recursive_types(T)]
#[verifier::reject_recursive_types(N)]
#[verifier::reject_recursive_types(A)]
pub struct ExGrammar<T, N, A>(lalr::Grammar<T, N, A>);

/// `lalr::LR1ParseTable`: the table that the construction gives. What a
/// value holds is not seen; `held_states` names it.
#[verifier::external_type_specification]
#[verifier::external_body]
#[verifier::reject_recursive_types(T)]
#[verifier::reject_recursive_types(N)]
#[verifier::reject_recursive_types(A)]
pub struct ExLR1ParseTable<'a, T: 'a, N: 'a, A: 'a>(lalr::LR1ParseTable<'a, T, N, A>);

/// `lalr::LR1Conflict`: the conflict that the construction reports. What
/// a value holds is not seen; `held_conflict` names it.
#[verifier::external_type_specification]
#[verifier::external_body]
#[verifier::reject_recursive_types(T)]
#[verifier::reject_recursive_types(N)]
#[verifier::reject_recursive_types(A)]
pub struct ExLR1Conflict<'a, T: 'a, N: 'a, A: 'a>(lalr::LR1Conflict<'a, T, N, A>);

/// The productions that a grammar of the `lalr` crate holds, each with the
/// number that is attached to it, in the rising order of these numbers.
pub uninterp spec fn held_rules(grammar: lalr::Grammar<usize, usize, usize>) -> Seq<RawRuleView>;

/// The start symbol of a grammar of the `lalr` crate.
pub uninterp spec fn held_start(grammar: lalr::Grammar<usize, usize, usize>) -> usize;

/// What `lalr::Grammar::lalr1` returns for the grammar with the given
/// productions and start symbol, where the hooks answer as `decisions`
/// says: the states of the table, or the conflict that it ran into.
pub uninterp spec fn lalr1_outcome(
    rules: Seq<RawRuleView>,
    start: usize,
    decisions: DecisionsView,
) -> Result<Seq<RawStateView>, RawConflictView>;

/// The states that a table of the `lalr` crate holds.
pub uninterp spec fn held_states(table: lalr::LR1ParseTable<'_, usize, usize, usize>) -> Seq<
    RawStateView,
>;

/// What a conflict of the `lalr` crate holds.
pub uninterp spec fn held_conflict(
    conflict: lalr::LR1Conflict<'_, usize, usize, usize>,
) -> RawConflictView;

/// Whether the grammar is augmented: its last production is the only one
/// of the start symbol, and derives one non-terminal followed by an end
/// marker; the start symbol and the end marker occur in no other
/// production.
pub open spec fn augmented(rules: Seq<RawRuleView>, start: usize) -> bool {
    &&& rules.len() > 0
    &&& rules.last().lhs == start
    &&& rules.last().rhs.len() == 2
    &&& !rules.last().rhs[0].terminal
    &&& rules.last().rhs[0].index != start
    &&& rules.last().rhs[1].terminal
    &&& forall|i: int, j: int|
        0 <= i < rules.len() - 1 && 0 <= j < rules[i].rhs.len() ==> (#[trigger] rules[i].rhs[j])
            != rules.last().rhs[1] && rules[i].rhs[j] != (RawSymbol {
            terminal: false,
            index: start,
        })
    &&& forall|i: int| 0 <= i < rules.len() - 1 ==> (#[trigger] rules[i]).lhs != start
}

/// Whether `decisions` holds an answer for each production of `rules` at
/// each terminal of `rules` and at the end of the input.
pub open spec fn decided(rules: Seq<RawRuleView>, decisions: DecisionsView) -> bool {
    &&& forall|i: int|
        0 <= i < rules.len() ==> {
            &&& (#[trigger] rules[i]).number < decisions.reduce.len()
            &&& rules[i].number < decisions.reduce_at_end.len()
            &&& rules[i].number < decisions.priority.len()
            &&& rules[i].number < decisions.priority_at_end.len()
        }
    &&& forall|i: int, j: int, k: int|
        0 <= i < rules.len() && 0 <= j < rules[i].rhs.len() && 0 <= k < decisions.reduce.len()
            && (#[trigger] rules[i].rhs[j]).terminal ==> rules[i].rhs[j].index
            < (#[trigger] decisions.reduce[k]).len()
    &&& forall|i: int, j: int, k: int|
        0 <= i < rules.len() && 0 <= j < rules[i].rhs.len() && 0 <= k < decisions.priority.len()
            && (#[trigger] rules[i].rhs[j]).terminal ==> rules[i].rhs[j].index
            < (#[trigger] decisions.priority[k]).len()
}

/// Whether `conflict`, where it is one between two reductions, is between
/// two different productions of `rules` to which `decisions` gives the same
/// priority at the token of the conflict.
pub open spec fn tied(
    rules: Seq<RawRuleView>,
    decisions: DecisionsView,
    conflict: RawConflictView,
) -> bool {
    conflict.second matches Some(second) ==> {
        &&& exists|i: int, j: int|
            0 <= i < rules.len() && 0 <= j < rules.len() && i != j && (#[trigger] rules[i]).number
                == conflict.first && (#[trigger] rules[j]).number == second
        &&& match conflict.token {
            Some(t) => t < decisions.priority[conflict.first as int].len() && t
                < decisions.priority[second as int].len()
                && decisions.priority[conflict.first as int][t as int]
                == decisions.priority[second as int][t as int],
            None => decisions.priority_at_end[conflict.first as int]
                == decisions.priority_at_end[second as int],
        }
    }
}

/// An empty grammar of the `lalr` crate with the start symbol `start`.
#[verifier::external_body]
pub(crate) fn new_grammar(start: usize) -> (grammar: lalr::Grammar<usize, usize, usize>)
    ensures
        held_rules(grammar) == Seq::<RawRuleView>::empty(),
        held_start(grammar) == start,
{
    lalr::Grammar { rules: std::collections::BTreeMap::new(), start }
}

/// Adds the production of `lhs` with the right-hand side `rhs` to a
/// grammar of the `lalr` crate and attaches `number` to it. The grammar
/// keeps the productions of one left-hand side in the order in which they
/// come; `number` is greater than the numbers of all that it holds, so
/// that the new production is the last by its number.
#[verifier::external_body]
pub(crate) fn add_rule(
    grammar: &mut lalr::Grammar<usize, usize, usize>,
    lhs: usize,
    rhs: &Vec<RawSymbol>,
    number: usize,
)
    requires
        forall|i: int|
            0 <= i < held_rules(*old(grammar)).len() ==> (#[trigger] held_rules(
                *old(grammar),
            )[i]).number < number,
    ensures
        held_start(*final(grammar)) == held_start(*old(grammar)),
        held_rules(*final(grammar)) == held_rules(*old(grammar)).push(
            RawRuleView { lhs, rhs: rhs@, number },
        ),
{
    let syms = rhs.iter().map(
        |s| if s.terminal {
            lalr::Symbol::Terminal(s.index)
        } else {
            lalr::Symbol::Nonterminal(s.index)
        },
    ).collect();
    grammar.rules.entry(lhs).or_insert_with(Vec::new).push(lalr::Rhs { syms, act: number });
}

/// Builds the LALR(1) table of a grammar by `lalr::Grammar::lalr1`. The
/// hooks that the function asks answer from `decisions`, by the number of
/// the production and the terminal. The grammar is augmented, which keeps
/// the function from finding two actions for the end of the input, where
/// it would not return. Of two productions that could both be reduced by
/// the function takes the one of the higher priority, and reports a
/// conflict between them only where the priorities are the same.
#[verifier::external_body]
pub(crate) fn lalr1<'a>(grammar: &'a lalr::Grammar<usize, usize, usize>, decisions: &Decisions) -> (r:
    Result<lalr::LR1ParseTable<'a, usize, usize, usize>, lalr::LR1Conflict<'a, usize, usize, usize>>)
    requires
        augmented(held_rules(*grammar), held_start(*grammar)),
        decided(held_rules(*grammar), decisions@),
    ensures
        match r {
            Ok(table) => lalr1_outcome(held_rules(*grammar), held_start(*grammar), decisions@)
                == Ok::<Seq<RawStateView>, RawConflictView>(held_states(table)),
            Err(conflict) => lalr1_outcome(held_rules(*grammar), held_start(*grammar), decisions@)
                == Err::<Seq<RawStateView>, RawConflictView>(held_conflict(conflict)) && tied(
                held_rules(*grammar),
                decisions@,
                held_conflict(conflict),
            ),
        },
{
    grammar.lalr1(
        |rhs, next| match next {
            Some(t) => decisions.reduce[rhs.act][*t],
            None => decisions.reduce_at_end[rhs.act],
        },
        |rhs, next| match next {
            Some(t) => decisions.priority[rhs.act][*t],
            None => decisions.priority_at_end[rhs.act],
        },
    )
}

/// The number of states of a table of the `lalr` crate.
#[verifier::external_body]
pub(crate) fn state_count(table: &lalr::LR1ParseTable<'_, usize, usize, usize>) -> (n: usize)
    ensures
        n == held_states(*table).len(),
{
    table.states.len()
}

/// The state `state` of a table of the `lalr` crate: its action at the end
/// of the input, its actions by terminal and its next states by
/// non-terminal, both in the order of the numbers. A reduction is given by
/// the number that is attached to its production.
#[verifier::external_body]
pub(crate) fn state_at(table: &lalr::LR1ParseTable<'_, usize, usize, usize>, state: usize) -> (r:
    RawState)
    requires
        state < held_states(*table).len(),
    ensures
        r@ == held_states(*table)[state as int],
{
    let action = |a: &lalr::LRAction<'_, usize, usize, usize>| match a {
        lalr::LRAction::Reduce(_, rhs) => RawAction::Reduce(rhs.act),
        lalr::LRAction::Shift(target) => RawAction::Shift(*target),
        lalr::LRAction::Accept => RawAction::Accept,
    };
    let s = &table.states[state];
    RawState {
        eof: s.eof.as_ref().map(action),
        lookahead: s.lookahead.iter().map(|(t, a)| (**t, action(a))).collect(),
        goto: s.goto.iter().map(|(n, target)| (**n, *target)).collect(),
    }
}

/// What a conflict of the `lalr` crate holds: the items of its state, the
/// terminal, and the numbers that are attached to the productions in
/// conflict.
#[verifier::external_body]
pub(crate) fn conflict_parts(conflict: &lalr::LR1Conflict<'_, usize, usize, usize>) -> (r:
    RawConflict)
    ensures
        r@ == held_conflict(*conflict),
{
    let (state, token, first, second) = match conflict {
        lalr::LR1Conflict::ReduceReduce { state, token, r1, r2 } => {
            (state, token, r1.1.act, Some(r2.1.act))
        },
        lalr::LR1Conflict::ShiftReduce { state, token, rule } => (state, token, rule.1.act, None),
    };
    let items = state.items.iter().map(|i| RawItem { rule: i.rhs.act, position: i.pos }).collect();
    RawConflict { items, token: token.copied(), first, second }
}

} // verus!
