//! The LR driver: a stack machine that runs a parse table over a token
//! stream and tells a semantic action what it does.

use crate::common::action::{
    accepted, is_transient, kept, leaf_of, tree_nodes, tree_reduced, Action, Call,
};
use crate::common::lalr_table::RawAction;
use crate::common::numbering::{lemma_place, place};
use crate::common::parse_table::{
    accepting, action_fits, action_for, entry, goto_fits_at, goto_for, lookahead_fits_at,
    state_fits, well_formed, ParseTable, TableView,
};
use crate::common::parse_tree::{views, NodeView};
use crate::common::symbol_table::{eof_name, Terminal};
use crate::compiler::lexer::{LocatedToken, LocatedTokenView};
use vstd::prelude::*;

verus! {

/// What the driver does next: it shifts the token and goes to a state; it
/// reduces by a production and goes to a state; it accepts; or it rejects
/// the token.
#[derive(Debug, Clone, Copy, PartialEq, Eq, Structural)]
pub enum Move {
    Shift(usize),
    Reduce(usize, usize),
    Accept,
    Reject,
}

/// What the driver does with the states `stack` when the next token is of
/// the terminal named `kind`. It follows the action of the table in the
/// topmost state. A reduction takes one state for each symbol of the
/// right-hand side and goes on from the state that it uncovers. Where the
/// table holds no action, where a reduction would take the whole stack or
/// where the uncovered state does not tell how to go on, the driver
/// rejects the token.
pub open spec fn next_move(table: TableView, stack: Seq<usize>, kind: Seq<char>) -> Move {
    match action_for(table, stack.last() as int, kind) {
        Some(RawAction::Shift(target)) => Move::Shift(target),
        Some(RawAction::Reduce(rule)) => {
            let length = table.rules[rule as int].rhs.len();
            if length < stack.len() {
                match goto_for(table, stack[stack.len() - 1 - length] as int, rule as int) {
                    Some(target) => Move::Reduce(rule, target),
                    None => Move::Reject,
                }
            } else {
                Move::Reject
            }
        },
        Some(RawAction::Accept) => Move::Accept,
        None => Move::Reject,
    }
}

/// How a run of the driver ends: the calls it made, the states it is left
/// with, the place of the token it looked at last, and whether it accepted.
pub ghost struct Outcome {
    pub calls: Seq<Call>,
    pub stack: Seq<usize>,
    pub cursor: nat,
    pub accepted: bool,
}

/// `outcome` with `calls` before its calls.
pub open spec fn after(calls: Seq<Call>, outcome: Outcome) -> Outcome {
    Outcome {
        calls: calls + outcome.calls,
        stack: outcome.stack,
        cursor: outcome.cursor,
        accepted: outcome.accepted,
    }
}

/// The states after a reduction by a right-hand side of `length` symbols
/// that goes on to `target`.
pub open spec fn reduced_stack(stack: Seq<usize>, length: nat, target: usize) -> Seq<usize> {
    stack.take(stack.len() - length).push(target)
}

/// The run of the driver from the states `stack` and the token at
/// `cursor`, for `fuel` steps at most. Each step is one move: a shift tells
/// the action of the token and goes to the next token; a reduction tells
/// the action of the production; to accept ends the run; to reject ends it
/// with an error for the token. A run that is out of steps ends with an
/// error for the token it has come to.
pub open spec fn run(
    table: TableView,
    tokens: Seq<LocatedTokenView>,
    stack: Seq<usize>,
    cursor: nat,
    fuel: nat,
) -> Outcome
    decreases fuel,
{
    if cursor >= tokens.len() {
        Outcome { calls: Seq::empty(), stack, cursor, accepted: false }
    } else if fuel == 0 {
        Outcome {
            calls: seq![Call::Error(tokens[cursor as int].token, tokens[cursor as int].span)],
            stack,
            cursor,
            accepted: false,
        }
    } else {
        match next_move(table, stack, tokens[cursor as int].token.kind) {
            Move::Shift(target) => after(
                seq![Call::Shift(tokens[cursor as int].token)],
                run(table, tokens, stack.push(target), cursor + 1, (fuel - 1) as nat),
            ),
            Move::Reduce(rule, target) => after(
                seq![
                    Call::Reduce(
                        table.rules[rule as int].non_terminal,
                        table.rules[rule as int].rhs,
                    ),
                ],
                run(
                    table,
                    tokens,
                    reduced_stack(stack, table.rules[rule as int].rhs.len(), target),
                    cursor,
                    (fuel - 1) as nat,
                ),
            ),
            Move::Accept => Outcome { calls: seq![Call::Accept], stack, cursor, accepted: true },
            Move::Reject => Outcome {
                calls: seq![Call::Error(tokens[cursor as int].token, tokens[cursor as int].span)],
                stack,
                cursor,
                accepted: false,
            },
        }
    }
}

/// The run of the driver over `tokens` from the first state.
pub open spec fn parsed(table: TableView, tokens: Seq<LocatedTokenView>) -> Outcome {
    run(table, tokens, seq![0usize], 0, usize::MAX as nat)
}

/// Whether each state of `stack` is a state of the table, and there is one
/// at least.
pub open spec fn stack_fits(table: TableView, stack: Seq<usize>) -> bool {
    &&& stack.len() > 0
    &&& forall|i: int| 0 <= i < stack.len() ==> #[trigger] stack[i] < table.states.len()
}

/// A pair that `entry` finds is among the pairs.
pub proof fn lemma_entry<V>(pairs: Seq<(usize, V)>, key: usize)
    ensures
        entry(pairs, key) matches Some(value) ==> exists|i: int|
            0 <= i < pairs.len() && #[trigger] pairs[i] == (key, value),
    decreases pairs.len(),
{
    if pairs.len() > 0 && pairs[0].0 != key {
        lemma_entry(pairs.drop_first(), key);
        if let Some(value) = entry(pairs, key) {
            let i = choose|i: int|
                0 <= i < pairs.drop_first().len() && #[trigger] pairs.drop_first()[i] == (
                    key,
                    value,
                );
            assert(pairs[i + 1] == (key, value));
        }
    } else if pairs.len() > 0 {
        assert(pairs[0] == (key, pairs[0].1));
    }
}

/// The move of a table that fits together leads to a state of the table,
/// and a reduction is by a production of the grammar that leaves a state on
/// the stack.
pub proof fn lemma_move_fits(table: TableView, stack: Seq<usize>, kind: Seq<char>)
    requires
        well_formed(table),
        stack_fits(table, stack),
    ensures
        match next_move(table, stack, kind) {
            Move::Shift(target) => 0 < target < table.states.len(),
            Move::Reduce(rule, target) => rule < table.rules.len() && table.rules[rule as int].rhs.len()
                < stack.len() && 0 < target < table.states.len(),
            _ => true,
        },
        action_for(table, stack.last() as int, kind) matches Some(RawAction::Reduce(rule)) ==> rule
            < table.rules.len(),
{
    let top = stack.last() as int;
    let end = table.terminals.len() as usize;
    let actions = table.states[top].lookahead;
    lemma_place(table.terminals, kind);
    assert(state_fits(table.states, top, table.rules.len(), end));
    let key = if kind == eof_name() {
        end
    } else {
        place(table.terminals, kind) as usize
    };
    lemma_entry(actions, key);
    if let Some(action) = entry(actions, key) {
        let i = choose|i: int| 0 <= i < actions.len() && #[trigger] actions[i] == (key, action);
        assert(lookahead_fits_at(table.states, top, i, table.rules.len(), end));
        assert(action_fits(action, table.states.len(), table.rules.len()));
    }
    if let Move::Reduce(rule, target) = next_move(table, stack, kind) {
        let length = table.rules[rule as int].rhs.len();
        let base = stack[stack.len() - 1 - length] as int;
        assert(state_fits(table.states, base, table.rules.len(), end));
        lemma_entry(table.states[base].goto, table.lhs[rule as int]);
        let j = choose|j: int|
            0 <= j < table.states[base].goto.len() && #[trigger] table.states[base].goto[j] == (
                table.lhs[rule as int],
                target,
            );
        assert(goto_fits_at(table.states, base, j, end));
    }
}

/// An LR parser: a parse table and the semantic action that it drives.
pub struct Parser<'a, A: Action> {
    parse_table: &'a ParseTable,
    semantic_action: A,
    state_stack: Vec<usize>,
    fetched: usize,
}

impl<'a, A: Action> Parser<'a, A> {
    /// The table of the parser.
    pub closed spec fn table(&self) -> TableView {
        self.parse_table@
    }

    /// The semantic action of the parser.
    pub closed spec fn action(&self) -> A {
        self.semantic_action
    }

    /// The states on the stack, bottom first.
    pub closed spec fn stack(&self) -> Seq<usize> {
        self.state_stack@
    }

    /// The number of tokens that the last parse took from its source.
    pub closed spec fn taken(&self) -> nat {
        self.fetched as nat
    }

    /// Whether the table fits together and the action fits what it was
    /// told.
    pub open spec fn wf(&self) -> bool {
        well_formed(self.table()) && self.action().consistent()
    }

    /// The parser for `parse_table` that drives `semantic_action`.
    pub fn new(parse_table: &'a ParseTable, semantic_action: A) -> (r: Self)
        requires
            parse_table.wf(),
            semantic_action.consistent(),
        ensures
            r.wf(),
            r.table() == parse_table@,
            r.action() == semantic_action,
            r.stack() == seq![0usize],
            r.taken() == 0,
    {
        let mut state_stack: Vec<usize> = Vec::new();
        state_stack.push(0);
        assert(state_stack@ =~= seq![0usize]);
        Self { parse_table, semantic_action, state_stack, fetched: 0 }
    }

    /// The number of tokens that the last parse took from its source.
    pub fn tokens_taken(&self) -> (n: usize)
        ensures
            n == self.taken(),
    {
        self.fetched
    }

    /// The number of states on the stack.
    pub fn stack_depth(&self) -> (n: usize)
        ensures
            n == self.stack().len(),
    {
        self.state_stack.len()
    }

    /// Gives the semantic action back.
    pub fn into_action(self) -> (r: A)
        ensures
            r == self.action(),
    {
        self.semantic_action
    }

    /// What the driver does next for a token of the terminal `kind`.
    fn decide(&self, kind: &Terminal) -> (r: Move)
        requires
            well_formed(self.table()),
            stack_fits(self.table(), self.stack()),
        ensures
            r == next_move(self.table(), self.stack(), kind@),
    {
        let depth = self.state_stack.len();
        let top = self.state_stack[depth - 1];
        let action = self.parse_table.action(top, kind);
        proof {
            lemma_move_fits(self.table(), self.stack(), kind@);
        }
        match action {
            Some(RawAction::Shift(target)) => Move::Shift(target),
            Some(RawAction::Reduce(rule)) => {
                let length = self.parse_table.rule(rule).rhs.len();
                assert(length == self.table().rules[rule as int].rhs.len());
                if length < depth {
                    let base = self.state_stack[depth - 1 - length];
                    match self.parse_table.goto(base, rule) {
                        Some(target) => Move::Reduce(rule, target),
                        None => Move::Reject,
                    }
                } else {
                    Move::Reject
                }
            },
            Some(RawAction::Accept) => Move::Accept,
            None => Move::Reject,
        }
    }

    /// Parses the input token stream using the LALR(1) parser.
    ///
    /// The stream is not empty and ends with the token of the end of the
    /// input. The parser looks at one token at a time and never beyond the
    /// token at which it accepts or fails.
    ///
    /// # Errors
    ///
    /// Returns what the semantic action makes of the token for which the
    /// table holds no action.
    pub fn parse(&mut self, tokens: Vec<LocatedToken>) -> (r: Result<
        A::ParseResult,
        A::ParseError,
    >)
        requires
            old(self).wf(),
            tokens.len() > 0,
            tokens@.last().token.kind@ == eof_name(),
        ensures
            final(self).wf(),
            final(self).table() == old(self).table(),
            final(self).action().heard() == old(self).action().heard() + parsed(
                old(self).table(),
                views(tokens@),
            ).calls,
            final(self).taken() == parsed(old(self).table(), views(tokens@)).cursor + 1,
            match r {
                Ok(result) => {
                    &&& parsed(old(self).table(), views(tokens@)).accepted
                    &&& final(self).action().delivered(&result)
                    &&& final(self).stack() == seq![0usize]
                },
                Err(error) => {
                    &&& !parsed(old(self).table(), views(tokens@)).accepted
                    &&& final(self).action().reported(&error)
                    &&& final(self).stack() == parsed(old(self).table(), views(tokens@)).stack
                },
            },
    {
        let ghost table = self.table();
        let ghost shown = views(tokens@);
        let ghost told = self.action().heard();
        let ghost done: Seq<Call> = Seq::empty();
        self.state_stack = Vec::new();
        self.state_stack.push(0);
        self.fetched = 1;
        let mut cursor: usize = 0;
        let mut fuel: usize = usize::MAX;
        proof {
            assert(self.state_stack@ =~= seq![0usize]);
            assert(after(done, run(table, shown, self.stack(), 0, fuel as nat)) == parsed(
                table,
                shown,
            )) by {
                let o = run(table, shown, self.stack(), 0, fuel as nat);
                assert(done + o.calls =~= o.calls);
            }
            assert(told + done =~= told);
        }
        loop
            invariant
                well_formed(table),
                table == old(self).table(),
                told == old(self).action().heard(),
                table == self.table(),
                self.action().consistent(),
                shown == views(tokens@),
                tokens.len() > 0,
                tokens@.last().token.kind@ == eof_name(),
                cursor < tokens.len(),
                self.fetched == cursor + 1,
                stack_fits(table, self.stack()),
                self.action().heard() == told + done,
                after(done, run(table, shown, self.stack(), cursor as nat, fuel as nat)) == parsed(
                    table,
                    shown,
                ),
            decreases fuel,
        {
            let located = &tokens[cursor];
            assert(shown[cursor as int] == located@);
            let ghost rest = run(table, shown, self.stack(), cursor as nat, fuel as nat);
            if fuel == 0 {
                let error = self.semantic_action.on_error(located.token.clone(), located.span);
                proof {
                    assert(told + done.push(Call::Error(located@.token, located@.span)) =~= (told
                        + done).push(Call::Error(located@.token, located@.span)));
                    assert(done + rest.calls =~= done.push(
                        Call::Error(located@.token, located@.span),
                    ));
                }
                return Err(error);
            }
            let step = self.decide(&located.token.kind);
            proof {
                lemma_move_fits(table, self.stack(), located@.token.kind);
            }
            match step {
                Move::Shift(target) => {
                    proof {
                        reveal_strlit("<EOF>");
                    }
                    assert(located@.token.kind != eof_name());
                    assert(cursor + 1 < tokens.len());
                    let ghost call = Call::Shift(located@.token);
                    let ghost next = run(
                        table,
                        shown,
                        self.stack().push(target),
                        (cursor + 1) as nat,
                        (fuel - 1) as nat,
                    );
                    self.state_stack.push(target);
                    self.semantic_action.on_shift(located.token.clone());
                    proof {
                        assert(rest == after(seq![call], next));
                        assert(done + (seq![call] + next.calls) =~= done.push(call) + next.calls);
                        assert(told + done.push(call) =~= (told + done).push(call));
                        done = done.push(call);
                    }
                    cursor += 1;
                    self.fetched = cursor + 1;
                },
                Move::Reduce(rule, target) => {
                    let production = self.parse_table.rule(rule);
                    let length = production.rhs.len();
                    let ghost before = self.stack();
                    let ghost call = Call::Reduce(production@.non_terminal, production@.rhs);
                    let ghost next = run(
                        table,
                        shown,
                        reduced_stack(before, length as nat, target),
                        cursor as nat,
                        (fuel - 1) as nat,
                    );
                    assert(length == table.rules[rule as int].rhs.len());
                    let depth = self.state_stack.len();
                    self.state_stack.truncate(depth - length);
                    self.state_stack.push(target);
                    assert(self.state_stack@ =~= reduced_stack(before, length as nat, target));
                    self.semantic_action.on_reduce(
                        &production.non_terminal,
                        production.rhs.as_slice(),
                    );
                    proof {
                        assert(rest == after(seq![call], next));
                        assert(done + (seq![call] + next.calls) =~= done.push(call) + next.calls);
                        assert(told + done.push(call) =~= (told + done).push(call));
                        done = done.push(call);
                    }
                },
                Move::Accept => {
                    let result = self.semantic_action.on_accept();
                    self.state_stack = Vec::new();
                    self.state_stack.push(0);
                    proof {
                        assert(self.state_stack@ =~= seq![0usize]);
                        assert(told + done.push(Call::Accept) =~= (told + done).push(Call::Accept));
                        assert(done + rest.calls =~= done.push(Call::Accept));
                    }
                    return Ok(result);
                },
                Move::Reject => {
                    let error = self.semantic_action.on_error(located.token.clone(), located.span);
                    proof {
                        assert(told + done.push(Call::Error(located@.token, located@.span)) =~= (
                        told + done).push(Call::Error(located@.token, located@.span)));
                        assert(done + rest.calls =~= done.push(
                            Call::Error(located@.token, located@.span),
                        ));
                    }
                    return Err(error);
                },
            }
            fuel -= 1;
        }
    }
}

/// The table shifts no token of the end of the input.
pub proof fn lemma_end_is_not_shifted(table: TableView, stack: Seq<usize>, kind: Seq<char>)
    requires
        well_formed(table),
        stack_fits(table, stack),
        next_move(table, stack, kind) is Shift,
    ensures
        kind != eof_name(),
{
    let end = table.terminals.len() as usize;
    let top = stack.last() as int;
    let target = next_move(table, stack, kind)->Shift_0;
    lemma_place(table.terminals, kind);
    assert(state_fits(table.states, top, table.rules.len(), end));
    let actions = table.states[top].lookahead;
    if kind == eof_name() {
        lemma_entry(actions, end);
        let at = choose|i: int|
            0 <= i < actions.len() && #[trigger] actions[i] == (end, RawAction::Shift(target));
        assert(lookahead_fits_at(table.states, top, at, table.rules.len(), end));
        assert(false);
    }
}

/// A run that does not accept ends with the call that tells of the token
/// that no action of the table fits, or of the token at which it was out
/// of steps: for a table that fits together and a stream that ends with
/// the token of the end of the input, the last call of such a run is the
/// error for the token at which the run has stopped.
pub proof fn lemma_rejecting_run(
    table: TableView,
    tokens: Seq<LocatedTokenView>,
    stack: Seq<usize>,
    cursor: nat,
    fuel: nat,
)
    requires
        well_formed(table),
        stack_fits(table, stack),
        tokens.len() > 0,
        tokens.last().token.kind == eof_name(),
        cursor < tokens.len(),
    ensures
        ({
            let outcome = run(table, tokens, stack, cursor, fuel);
            !outcome.accepted ==> {
                &&& outcome.cursor < tokens.len()
                &&& outcome.calls.len() > 0
                &&& outcome.calls.last() == Call::Error(
                    tokens[outcome.cursor as int].token,
                    tokens[outcome.cursor as int].span,
                )
            }
        }),
    decreases fuel,
{
    let outcome = run(table, tokens, stack, cursor, fuel);
    if fuel > 0 && !outcome.accepted {
        let kind = tokens[cursor as int].token.kind;
        lemma_move_fits(table, stack, kind);
        match next_move(table, stack, kind) {
            Move::Shift(target) => {
                lemma_end_is_not_shifted(table, stack, kind);
                let next = stack.push(target);
                assert forall|i: int| 0 <= i < next.len() implies #[trigger] next[i]
                    < table.states.len() by {
                    if i < stack.len() {
                        assert(next[i] == stack[i]);
                    }
                }
                lemma_rejecting_run(table, tokens, next, cursor + 1, (fuel - 1) as nat);
                let rest = run(table, tokens, next, cursor + 1, (fuel - 1) as nat);
                assert(outcome == after(seq![Call::Shift(tokens[cursor as int].token)], rest));
                assert(outcome.calls.last() == rest.calls.last());
            },
            Move::Reduce(rule, target) => {
                let production = table.rules[rule as int];
                let next = reduced_stack(stack, production.rhs.len(), target);
                assert forall|i: int| 0 <= i < next.len() implies #[trigger] next[i]
                    < table.states.len() by {
                    if i < next.len() - 1 {
                        assert(next[i] == stack[i]);
                    }
                }
                lemma_rejecting_run(table, tokens, next, cursor, (fuel - 1) as nat);
                let rest = run(table, tokens, next, cursor, (fuel - 1) as nat);
                assert(outcome == after(
                    seq![Call::Reduce(production.non_terminal, production.rhs)],
                    rest,
                ));
                assert(outcome.calls.last() == rest.calls.last());
            },
            _ => {},
        }
    }
}

/// The number of tokens that `calls` tell of as shifted.
pub open spec fn shifts(calls: Seq<Call>) -> nat
    decreases calls.len(),
{
    if calls.len() == 0 {
        0
    } else if calls[0] is Shift {
        1 + shifts(calls.drop_first())
    } else {
        shifts(calls.drop_first())
    }
}

/// Whether the states of `stack` can have come about by moves of the
/// driver: the first state lies at the bottom and nowhere else, and a state
/// that accepts lies right above it.
pub open spec fn entered(table: TableView, stack: Seq<usize>) -> bool {
    &&& stack_fits(table, stack)
    &&& stack[0] == 0
    &&& forall|i: int| 1 <= i < stack.len() ==> #[trigger] stack[i] != 0
    &&& forall|i: int|
        1 <= i < stack.len() && accepting(
            table.states,
            #[trigger] stack[i] as int,
            table.terminals.len() as usize,
        ) ==> i == 1
}

/// Whether the default action keeps step with the driver: each production
/// of a non-terminal that gets no node of its own has one symbol on its
/// right-hand side, so that a reduction by it leaves as many nodes as
/// states.
pub open spec fn keeps_step(table: TableView) -> bool {
    forall|rule: int|
        0 <= rule < table.rules.len() && is_transient((#[trigger] table.rules[rule]).non_terminal)
            ==> table.rules[rule].rhs.len() == 1
}

/// Whether the nodes that the default action holds go with the states of
/// `stack`, for a table with which it keeps step: there is one node for
/// each state above the first, and the node that goes with a state that
/// accepts is a node of the start symbol, where the start symbol gets a
/// node.
pub open spec fn balanced(table: TableView, stack: Seq<usize>, nodes: Seq<NodeView>) -> bool {
    keeps_step(table) ==> {
        &&& nodes.len() == stack.len() - 1
        &&& stack.len() >= 2 && accepting(
            table.states,
            stack[1] as int,
            table.terminals.len() as usize,
        ) && !is_transient(table.non_terminals[0]) ==> nodes[0].is_non_terminal(
            table.non_terminals[0],
        )
    }
}

/// A shift leaves the states entered as the table allows, and the nodes of
/// the default action in step with them.
pub proof fn lemma_shift_keeps(
    table: TableView,
    stack: Seq<usize>,
    nodes: Seq<NodeView>,
    kind: Seq<char>,
    leaf: NodeView,
)
    requires
        well_formed(table),
        entered(table, stack),
        balanced(table, stack, nodes),
        next_move(table, stack, kind) is Shift,
    ensures
        kind != eof_name(),
        entered(table, stack.push(next_move(table, stack, kind)->Shift_0)),
        balanced(table, stack.push(next_move(table, stack, kind)->Shift_0), nodes.push(leaf)),
{
    let end = table.terminals.len() as usize;
    let top = stack.last() as int;
    let target = next_move(table, stack, kind)->Shift_0;
    lemma_move_fits(table, stack, kind);
    lemma_place(table.terminals, kind);
    assert(state_fits(table.states, top, table.rules.len(), end));
    let actions = table.states[top].lookahead;
    assert(kind != eof_name());
    let key = place(table.terminals, kind) as usize;
    assert(place(table.terminals, kind) < table.terminals.len());
    lemma_entry(actions, key);
    let at = choose|i: int|
        0 <= i < actions.len() && #[trigger] actions[i] == (key, RawAction::Shift(target));
    assert(lookahead_fits_at(table.states, top, at, table.rules.len(), end));
    assert(key != end);
    assert(actions[at].0 == key);
    assert(!accepting(table.states, target as int, end));
    let next = stack.push(target);
    assert forall|i: int| 0 <= i < next.len() implies #[trigger] next[i] < table.states.len() by {
        if i < stack.len() {
            assert(next[i] == stack[i]);
        }
    }
    assert forall|i: int| 1 <= i < next.len() implies #[trigger] next[i] != 0 by {
        if i < stack.len() {
            assert(next[i] == stack[i]);
        }
    }
    assert forall|i: int|
        1 <= i < next.len() && accepting(table.states, #[trigger] next[i] as int, end) implies i
        == 1 by {
        if i < stack.len() {
            assert(next[i] == stack[i]);
        }
    }
    if keeps_step(table) && stack.len() >= 2 {
        assert(next[1] == stack[1]);
        assert(nodes.push(leaf)[0] == nodes[0]);
    }
}

/// A reduction leaves the states entered as the table allows, and the
/// nodes of the default action in step with them.
pub proof fn lemma_reduce_keeps(
    table: TableView,
    stack: Seq<usize>,
    nodes: Seq<NodeView>,
    kind: Seq<char>,
)
    requires
        well_formed(table),
        entered(table, stack),
        balanced(table, stack, nodes),
        next_move(table, stack, kind) is Reduce,
    ensures
        ({
            let rule = next_move(table, stack, kind)->Reduce_0;
            let target = next_move(table, stack, kind)->Reduce_1;
            let production = table.rules[rule as int];
            &&& rule < table.rules.len()
            &&& entered(table, reduced_stack(stack, production.rhs.len(), target))
            &&& balanced(
                table,
                reduced_stack(stack, production.rhs.len(), target),
                tree_reduced(nodes, production.non_terminal, production.rhs.len()),
            )
        }),
{
    let end = table.terminals.len() as usize;
    let rule = next_move(table, stack, kind)->Reduce_0;
    let target = next_move(table, stack, kind)->Reduce_1;
    lemma_move_fits(table, stack, kind);
    let production = table.rules[rule as int];
    let length = production.rhs.len();
    let base = stack[stack.len() - 1 - length] as int;
    assert(state_fits(table.states, base, table.rules.len(), end));
    lemma_entry(table.states[base].goto, table.lhs[rule as int]);
    let at = choose|j: int|
        0 <= j < table.states[base].goto.len() && #[trigger] table.states[base].goto[j] == (
            table.lhs[rule as int],
            target,
        );
    assert(goto_fits_at(table.states, base, at, end));
    let next = reduced_stack(stack, length, target);
    let next_nodes = tree_reduced(nodes, production.non_terminal, length);
    assert(next.len() == stack.len() - length + 1);
    if keeps_step(table) {
        if is_transient(table.rules[rule as int].non_terminal) {
            assert(length == 1);
            assert(next_nodes == nodes);
        } else {
            assert(next_nodes.len() == kept(nodes, length).len() + 1);
            assert(next_nodes.last().is_non_terminal(production.non_terminal));
        }
        assert(next_nodes.len() == next.len() - 1);
    }
    assert(table.non_terminals[table.lhs[rule as int] as int] == production.non_terminal);
    assert forall|i: int| 0 <= i < next.len() implies #[trigger] next[i] < table.states.len() by {
        if i < next.len() - 1 {
            assert(next[i] == stack[i]);
        }
    }
    assert forall|i: int| 1 <= i < next.len() implies #[trigger] next[i] != 0 by {
        if i < next.len() - 1 {
            assert(next[i] == stack[i]);
        }
    }
    assert forall|i: int|
        1 <= i < next.len() && accepting(table.states, #[trigger] next[i] as int, end) implies i
        == 1 by {
        if i < next.len() - 1 {
            assert(next[i] == stack[i]);
        } else if stack.len() - 1 - length > 0 {
            assert(stack[stack.len() - 1 - length] != 0);
        }
    }
    if keeps_step(table) && next.len() >= 2 && accepting(table.states, next[1] as int, end)
        && !is_transient(table.non_terminals[0]) {
        if next.len() == 2 {
            assert(next[1] == target);
            assert(base == 0);
            assert(table.lhs[rule as int] == 0);
            assert(production.non_terminal == table.non_terminals[0]);
            assert(next_nodes[0] == next_nodes.last());
        } else {
            assert(next[1] == stack[1]);
            assert(next_nodes[0] == nodes[0]);
        }
    }
}

/// Where the driver accepts, it holds the first state and the one that
/// accepts, and the token is that of the end of the input. The default
/// action holds one node, where it keeps step with the driver: that of the
/// start symbol, where the start symbol gets a node.
pub proof fn lemma_accept_shape(
    table: TableView,
    stack: Seq<usize>,
    nodes: Seq<NodeView>,
    kind: Seq<char>,
)
    requires
        well_formed(table),
        entered(table, stack),
        balanced(table, stack, nodes),
        next_move(table, stack, kind) is Accept,
    ensures
        kind == eof_name(),
        stack.len() == 2,
        keeps_step(table) ==> nodes.len() == 1,
        keeps_step(table) && !is_transient(table.non_terminals[0]) ==> nodes[0].is_non_terminal(
            table.non_terminals[0],
        ),
{
    let end = table.terminals.len() as usize;
    let top = stack.last() as int;
    lemma_move_fits(table, stack, kind);
    lemma_place(table.terminals, kind);
    assert(state_fits(table.states, top, table.rules.len(), end));
    let actions = table.states[top].lookahead;
    if kind != eof_name() {
        let key = place(table.terminals, kind) as usize;
        lemma_entry(actions, key);
        let at = choose|i: int|
            0 <= i < actions.len() && #[trigger] actions[i] == (key, RawAction::Accept);
        assert(lookahead_fits_at(table.states, top, at, table.rules.len(), end));
        assert(false);
    }
    assert(accepting(table.states, top, end));
    if stack.len() == 1 {
        assert(stack[0] == 0);
        assert(false);
    }
    assert(stack[stack.len() - 1] == stack.last());
    assert(stack.len() == 2);
}

/// What holds at the end of a run that accepts, for a table that fits
/// together and a default action whose nodes go with the states at the
/// start of the run.
///
/// The run ends with the call that tells of the acceptance, at the token
/// of the end of the input. It leaves two states: the first, and the one
/// that accepts. And the run has come as many tokens forward as it has
/// shifted. Where the default action keeps step with the driver, it then
/// holds one node: that of the start symbol, where the start symbol gets a
/// node.
pub proof fn lemma_accepting_run(
    table: TableView,
    tokens: Seq<LocatedTokenView>,
    stack: Seq<usize>,
    cursor: nat,
    fuel: nat,
    told: Seq<Call>,
)
    requires
        well_formed(table),
        table.non_terminals.len() > 0,
        entered(table, stack),
        balanced(table, stack, tree_nodes(told)),
    ensures
        ({
            let outcome = run(table, tokens, stack, cursor, fuel);
            outcome.accepted ==> {
                &&& outcome.calls.len() > 0
                &&& outcome.calls.last() == Call::Accept
                &&& outcome.stack.len() == 2
                &&& keeps_step(table) ==> tree_nodes(told + outcome.calls.drop_last()).len() == 1
                &&& keeps_step(table) && !is_transient(table.non_terminals[0]) ==> tree_nodes(
                    told + outcome.calls.drop_last(),
                )[0].is_non_terminal(table.non_terminals[0])
                &&& outcome.cursor < tokens.len()
                &&& tokens[outcome.cursor as int].token.kind == eof_name()
                &&& outcome.cursor == cursor + shifts(outcome.calls)
            }
        }),
    decreases fuel,
{
    let outcome = run(table, tokens, stack, cursor, fuel);
    let nodes = tree_nodes(told);
    if cursor < tokens.len() && fuel > 0 && outcome.accepted {
        let token = tokens[cursor as int];
        let kind = token.token.kind;
        match next_move(table, stack, kind) {
            Move::Shift(target) => {
                let call = Call::Shift(token.token);
                let leaf = leaf_of(
                    token.token.kind,
                    token.token.text,
                    token.token.start,
                    token.token.end,
                );
                lemma_shift_keeps(table, stack, nodes, kind, leaf);
                let next_stack = stack.push(target);
                let next_told = told.push(call);
                assert(next_told.drop_last() =~= told);
                assert(tree_nodes(next_told) == nodes.push(leaf));
                lemma_accepting_run(
                    table,
                    tokens,
                    next_stack,
                    cursor + 1,
                    (fuel - 1) as nat,
                    next_told,
                );
                let rest = run(table, tokens, next_stack, cursor + 1, (fuel - 1) as nat);
                assert(outcome == after(seq![call], rest));
                assert(rest.accepted);
                assert(outcome.calls == seq![call] + rest.calls);
                assert(outcome.calls.drop_first() =~= rest.calls);
                assert(outcome.calls[0] == call);
                assert(shifts(outcome.calls) == 1 + shifts(rest.calls));
                assert(outcome.calls.last() == rest.calls.last());
                assert(told + outcome.calls.drop_last() =~= next_told + rest.calls.drop_last());
            },
            Move::Reduce(rule, target) => {
                lemma_reduce_keeps(table, stack, nodes, kind);
                let production = table.rules[rule as int];
                let length = production.rhs.len();
                let call = Call::Reduce(production.non_terminal, production.rhs);
                let next_stack = reduced_stack(stack, length, target);
                let next_told = told.push(call);
                assert(next_told.drop_last() =~= told);
                assert(tree_nodes(next_told) == tree_reduced(
                    nodes,
                    production.non_terminal,
                    length,
                ));
                lemma_accepting_run(table, tokens, next_stack, cursor, (fuel - 1) as nat, next_told);
                let rest = run(table, tokens, next_stack, cursor, (fuel - 1) as nat);
                assert(outcome == after(seq![call], rest));
                assert(rest.accepted);
                assert(outcome.calls == seq![call] + rest.calls);
                assert(outcome.calls.drop_first() =~= rest.calls);
                assert(outcome.calls[0] == call);
                assert(shifts(outcome.calls) == shifts(rest.calls));
                assert(outcome.calls.last() == rest.calls.last());
                assert(told + outcome.calls.drop_last() =~= next_told + rest.calls.drop_last());
            },
            Move::Accept => {
                lemma_accept_shape(table, stack, nodes, kind);
                assert(outcome.calls =~= seq![Call::Accept]);
                assert(outcome.calls.drop_last() =~= Seq::<Call>::empty());
                assert(told + outcome.calls.drop_last() =~= told);
                assert(outcome.calls.drop_first() =~= Seq::<Call>::empty());
                assert(shifts(outcome.calls.drop_first()) == 0);
                assert(shifts(outcome.calls) == 0);
            },
            Move::Reject => {},
        }
    }
}

/// After a parse that accepts, the driver has left the first state and the
/// one that accepts. It has looked at one token more than it has shifted,
/// the last being the token of the end of the input. Where the default
/// action keeps step with the driver, it has held one node; where the
/// start symbol gets a node, that is the node of the start symbol, which
/// the action has returned.
pub proof fn lemma_accepted_parse(
    table: TableView,
    tokens: Seq<LocatedTokenView>,
    start: Seq<char>,
)
    requires
        well_formed(table),
        table.non_terminals.len() > 0,
        table.non_terminals[0] == start,
    ensures
        ({
            let outcome = parsed(table, tokens);
            let told = seq![Call::Made(start)];
            outcome.accepted ==> {
                &&& outcome.calls.last() == Call::Accept
                &&& outcome.stack.len() == 2
                &&& keeps_step(table) ==> tree_nodes(told + outcome.calls.drop_last()).len() == 1
                &&& keeps_step(table) && !is_transient(start) ==> accepted(
                    tree_nodes(told + outcome.calls.drop_last()),
                    start,
                ) == tree_nodes(told + outcome.calls.drop_last())[0]
                &&& outcome.cursor == shifts(outcome.calls)
                &&& tokens[outcome.cursor as int].token.kind == eof_name()
            }
        }),
{
    let told = seq![Call::Made(start)];
    assert(told.drop_last() =~= Seq::<Call>::empty());
    assert(tree_nodes(told.drop_last()) =~= Seq::<NodeView>::empty());
    assert(tree_nodes(told) =~= Seq::<NodeView>::empty());
    lemma_accepting_run(table, tokens, seq![0usize], 0, usize::MAX as nat, told);
}

/// A stream of tokens that holds the token of the end of the input at its
/// end and nowhere else is read to its end by a parse that accepts: the
/// driver takes each token once from its source, and shifts all but the
/// last.
pub proof fn lemma_whole_stream_taken(table: TableView, tokens: Seq<LocatedTokenView>)
    requires
        well_formed(table),
        table.non_terminals.len() > 0,
        tokens.len() > 0,
        forall|i: int|
            0 <= i < tokens.len() ==> ((#[trigger] tokens[i]).token.kind == eof_name() <==> i
                == tokens.len() - 1),
    ensures
        parsed(table, tokens).accepted ==> parsed(table, tokens).cursor + 1 == tokens.len()
            && shifts(parsed(table, tokens).calls) == tokens.len() - 1,
{
    let told = Seq::<Call>::empty();
    assert(tree_nodes(told) =~= Seq::<NodeView>::empty());
    lemma_accepting_run(table, tokens, seq![0usize], 0, usize::MAX as nat, told);
}

} // verus!
