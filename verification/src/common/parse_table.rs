//! LALR(1) parse tables.

use crate::common::error::{Conflict, ConflictView, GrammarError, GrammarErrorView};
use crate::common::grammar_rules::{
    GrammarRules, GrammarRulesView, GrammarSymbol, GrammarSymbolView, Rule, RuleView,
};
use crate::common::lalr_table::{
    add_rule,
    augmented,
    conflict_parts,
    decided,
    held_rules,
    held_start,
    held_states,
    lalr1,
    lalr1_outcome,
    new_grammar,
    state_at,
    state_count,
    tied,
    Decisions,
    DecisionsView,
    RawAction,
    RawConflict,
    RawConflictView,
    RawRuleView,
    RawState,
    RawStateView,
    RawSymbol,
};
use crate::common::numbering::{
    find, lemma_distinct, lemma_numbered, lemma_place, mentioned_non_terminals, non_terminals_of,
    number_grammar, numbered_lhs, numbered_rules, place, rhs_views, terminals_of, NumberedGrammar,
};
use crate::common::parse_tree::views;
use crate::common::reachability::{first_unreachable, unreachable_symbol};
use crate::common::symbol_table::{eof_name, optional_name, Terminal};
use vstd::prelude::*;

verus! {

/// How a table settles its conflicts.
///
/// Where the table could reduce by a production and the next token allows
/// a shift too, `reduce_on` decides: where it answers no, the table shifts.
/// Where two productions could be reduced by, the one of the higher
/// priority is taken, and of two of the same priority the one that is
/// declared earlier. A lookahead of `None` stands for the end of the
/// input.
pub trait ConflictPolicy {
    /// Whether the table may reduce by a production with the right-hand
    /// side `rhs` when `lookahead` comes next. A policy that does not say
    /// leaves it open.
    open spec fn may_reduce(
        &self,
        rhs: Seq<GrammarSymbolView>,
        lookahead: Option<Seq<char>>,
    ) -> bool {
        arbitrary()
    }

    /// The priority of a production with the right-hand side `rhs` when
    /// `lookahead` comes next. A policy that does not say leaves it open.
    open spec fn priority(&self, rhs: Seq<GrammarSymbolView>, lookahead: Option<Seq<char>>) -> i32 {
        arbitrary()
    }

    fn reduce_on(&self, rhs: &[GrammarSymbol], lookahead: Option<&Terminal>) -> (b: bool)
        ensures
            b == self.may_reduce(views(rhs@), optional_name(lookahead)),
    ;

    fn priority_of(&self, rhs: &[GrammarSymbol], lookahead: Option<&Terminal>) -> (p: i32)
        ensures
            p == self.priority(views(rhs@), optional_name(lookahead)),
    ;
}

/// The policy that never keeps the table from reducing and prefers no
/// production.
pub struct AlwaysReduce;

impl ConflictPolicy for AlwaysReduce {
    open spec fn may_reduce(
        &self,
        rhs: Seq<GrammarSymbolView>,
        lookahead: Option<Seq<char>>,
    ) -> bool {
        true
    }

    open spec fn priority(&self, rhs: Seq<GrammarSymbolView>, lookahead: Option<Seq<char>>) -> i32 {
        0
    }

    fn reduce_on(&self, rhs: &[GrammarSymbol], lookahead: Option<&Terminal>) -> (b: bool) {
        true
    }

    fn priority_of(&self, rhs: &[GrammarSymbol], lookahead: Option<&Terminal>) -> (p: i32) {
        0
    }
}

/// The lookahead that the column `column` stands for: the terminal of that
/// number, or the end of the input for the column behind the terminals.
pub open spec fn lookahead_at(terminals: Seq<Seq<char>>, column: int) -> Option<Seq<char>> {
    if 0 <= column < terminals.len() {
        Some(terminals[column])
    } else {
        None
    }
}

/// What `policy` answers for the productions `rules` of a grammar with
/// the terminals `terminals`. There is one row more than productions, for
/// the production that is added for the start symbol, and one column more
/// than terminals, for the end of the input. The added production may
/// always be reduced by.
pub open spec fn answers_of<P: ConflictPolicy>(
    policy: &P,
    rules: Seq<RuleView>,
    terminals: Seq<Seq<char>>,
) -> DecisionsView {
    DecisionsView {
        reduce: Seq::new(
            rules.len() + 1,
            |r: int|
                Seq::new(
                    terminals.len() + 1,
                    |t: int|
                        if r < rules.len() {
                            policy.may_reduce(rules[r].rhs, lookahead_at(terminals, t))
                        } else {
                            true
                        },
                ),
        ),
        reduce_at_end: Seq::new(rules.len() + 1, |r: int| true),
        priority: Seq::new(
            rules.len() + 1,
            |r: int|
                Seq::new(
                    terminals.len() + 1,
                    |t: int|
                        if r < rules.len() {
                            policy.priority(rules[r].rhs, lookahead_at(terminals, t))
                        } else {
                            0i32
                        },
                ),
        ),
        priority_at_end: Seq::new(rules.len() + 1, |r: int| 0i32),
    }
}

/// Asks `policy` about each production at each terminal and at the end of
/// the input.
pub fn ask<P: ConflictPolicy>(policy: &P, rules: &Vec<Rule>, terminals: &Vec<String>) -> (r:
    Decisions)
    requires
        rules.len() < usize::MAX,
        terminals.len() < usize::MAX,
    ensures
        r@ == answers_of(policy, views(rules@), views(terminals@)),
        r.priority.len() == rules.len() + 1,
        forall|k: int| 0 <= k < r.priority.len() ==> (#[trigger] r.priority@[k]).len() == terminals.len() + 1,
{
    let ghost shown = views(rules@);
    let ghost names = views(terminals@);
    let ghost wanted = answers_of(policy, shown, names);
    let mut reduce: Vec<Vec<bool>> = Vec::new();
    let mut priority: Vec<Vec<i32>> = Vec::new();
    let mut reduce_at_end: Vec<bool> = Vec::new();
    let mut priority_at_end: Vec<i32> = Vec::new();
    let mut i: usize = 0;
    while i <= rules.len()
        invariant
            i <= rules.len() + 1,
            rules.len() < usize::MAX,
            terminals.len() < usize::MAX,
            shown == views(rules@),
            names == views(terminals@),
            wanted == answers_of(policy, shown, names),
            reduce.len() == i,
            priority.len() == i,
            reduce_at_end.len() == i,
            priority_at_end.len() == i,
            forall|k: int| 0 <= k < i ==> (#[trigger] reduce@[k])@ == wanted.reduce[k],
            forall|k: int| 0 <= k < i ==> (#[trigger] priority@[k])@ == wanted.priority[k],
            forall|k: int| 0 <= k < i ==> (#[trigger] priority@[k]).len() == terminals.len() + 1,
            forall|k: int| 0 <= k < i ==> #[trigger] reduce_at_end@[k] == true,
            forall|k: int| 0 <= k < i ==> #[trigger] priority_at_end@[k] == 0i32,
        decreases rules.len() + 1 - i,
    {
        let mut reduce_row: Vec<bool> = Vec::new();
        let mut priority_row: Vec<i32> = Vec::new();
        let mut t: usize = 0;
        while t <= terminals.len()
            invariant
                t <= terminals.len() + 1,
                i <= rules.len(),
                terminals.len() < usize::MAX,
                shown == views(rules@),
                names == views(terminals@),
                wanted == answers_of(policy, shown, names),
                reduce_row.len() == t,
                priority_row.len() == t,
                forall|k: int| 0 <= k < t ==> #[trigger] reduce_row@[k] == wanted.reduce[i as int][k],
                forall|k: int|
                    0 <= k < t ==> #[trigger] priority_row@[k] == wanted.priority[i as int][k],
            decreases terminals.len() + 1 - t,
        {
            if i < rules.len() {
                let rhs = rules[i].rhs.as_slice();
                assert(views(rhs@) == shown[i as int].rhs);
                if t < terminals.len() {
                    let next = Terminal(terminals[t].clone());
                    assert(optional_name(Some(&next)) == lookahead_at(names, t as int));
                    reduce_row.push(policy.reduce_on(rhs, Some(&next)));
                    priority_row.push(policy.priority_of(rhs, Some(&next)));
                } else {
                    assert(optional_name(None) == lookahead_at(names, t as int));
                    reduce_row.push(policy.reduce_on(rhs, None));
                    priority_row.push(policy.priority_of(rhs, None));
                }
            } else {
                reduce_row.push(true);
                priority_row.push(0);
            }
            t += 1;
        }
        assert(reduce_row@ =~= wanted.reduce[i as int]);
        assert(priority_row@ =~= wanted.priority[i as int]);
        reduce.push(reduce_row);
        priority.push(priority_row);
        reduce_at_end.push(true);
        priority_at_end.push(0);
        i += 1;
    }
    let decisions = Decisions { reduce, reduce_at_end, priority, priority_at_end };
    proof {
        assert(decisions@.reduce =~= wanted.reduce);
        assert(decisions@.priority =~= wanted.priority);
        assert(decisions@.reduce_at_end =~= wanted.reduce_at_end);
        assert(decisions@.priority_at_end =~= wanted.priority_at_end);
    }
    decisions
}

/// Whether the production at `first` goes before the production at
/// `second` where the lookahead of the column `column` comes next, by the
/// priorities `given`: it has the higher priority, or the same and the
/// earlier place.
pub open spec fn goes_before(given: Seq<Seq<i32>>, column: int, first: int, second: int) -> bool {
    given[first][column] > given[second][column] || (given[first][column]
        == given[second][column] && first < second)
}

/// The number of productions among the first `count` that the production
/// at `rule` goes before at the column `column`.
pub open spec fn rank(given: Seq<Seq<i32>>, column: int, rule: int, count: nat) -> nat
    decreases count,
{
    if count == 0 {
        0
    } else {
        let below = rank(given, column, rule, (count - 1) as nat);
        if goes_before(given, column, rule, count - 1) {
            below + 1
        } else {
            below
        }
    }
}

/// The priorities `given` as ranks: each gives way to the rank that its
/// production has in its column among all the productions.
pub open spec fn ranked(given: Seq<Seq<i32>>) -> Seq<Seq<i32>> {
    Seq::new(
        given.len(),
        |r: int| Seq::new(given[r].len(), |t: int| rank(given, t, r, given.len()) as i32),
    )
}

/// The ranks of `count` productions by their places alone: the earlier a
/// production is declared, the higher its rank.
pub open spec fn ranked_by_place(count: nat) -> Seq<i32> {
    Seq::new(count, |r: int| (count - 1 - r) as i32)
}

/// What the construction of a table is told for the productions `rules` of
/// a grammar with the terminals `terminals` under `policy`: whether it may
/// reduce, as `policy` answers, and for the priority of a production at a
/// lookahead the rank that the production has there. So the construction
/// never sees two productions of one priority: a production of a higher
/// priority under `policy` has the higher rank, and of two productions of
/// the same priority the one that is declared earlier. The production that
/// is added for the start symbol is ranked as the last of the priority
/// zero.
pub open spec fn decisions_of<P: ConflictPolicy>(
    policy: &P,
    rules: Seq<RuleView>,
    terminals: Seq<Seq<char>>,
) -> DecisionsView {
    let answers = answers_of(policy, rules, terminals);
    DecisionsView {
        reduce: answers.reduce,
        reduce_at_end: answers.reduce_at_end,
        priority: ranked(answers.priority),
        priority_at_end: ranked_by_place(rules.len() + 1),
    }
}

/// A rank among `count` productions is `count` at most.
pub proof fn lemma_rank_bound(given: Seq<Seq<i32>>, column: int, rule: int, count: nat)
    ensures
        rank(given, column, rule, count) <= count,
    decreases count,
{
    if count > 0 {
        lemma_rank_bound(given, column, rule, (count - 1) as nat);
    }
}

/// A production that goes before another has the higher rank.
pub proof fn lemma_rank_orders(
    given: Seq<Seq<i32>>,
    column: int,
    first: int,
    second: int,
    count: nat,
)
    requires
        goes_before(given, column, first, second),
    ensures
        rank(given, column, first, count) >= rank(given, column, second, count) + (if 0 <= second
            < count {
            1int
        } else {
            0int
        }),
    decreases count,
{
    if count > 0 {
        lemma_rank_orders(given, column, first, second, (count - 1) as nat);
    }
}

/// Two productions in different rows have different ranks in each column.
pub proof fn lemma_ranks_differ(given: Seq<Seq<i32>>, column: int, first: int, second: int)
    requires
        0 <= first < given.len(),
        0 <= second < given.len(),
        first != second,
    ensures
        rank(given, column, first, given.len()) != rank(given, column, second, given.len()),
        rank(given, column, first, given.len()) > rank(given, column, second, given.len())
            <==> goes_before(given, column, first, second),
{
    if goes_before(given, column, first, second) {
        lemma_rank_orders(given, column, first, second, given.len());
    } else {
        assert(goes_before(given, column, second, first));
        lemma_rank_orders(given, column, second, first, given.len());
    }
}

/// No two productions of a grammar are of one priority for the
/// construction of its table: at each lookahead, the production of the
/// higher priority under the policy is handed over with the higher
/// priority, and of two productions of the same priority under the policy
/// the one that is declared earlier.
pub proof fn lemma_priorities_differ<P: ConflictPolicy>(
    policy: &P,
    rules: Seq<RuleView>,
    terminals: Seq<Seq<char>>,
    first: int,
    second: int,
    column: int,
)
    requires
        rules.len() < i32::MAX,
        0 <= first < rules.len(),
        0 <= second < rules.len(),
        first != second,
        0 <= column <= terminals.len(),
    ensures
        ({
            let told = decisions_of(policy, rules, terminals).priority;
            let lookahead = lookahead_at(terminals, column);
            let high = policy.priority(rules[first].rhs, lookahead);
            let low = policy.priority(rules[second].rhs, lookahead);
            &&& told[first][column] != told[second][column]
            &&& told[first][column] > told[second][column] <==> high > low || (high == low && first
                < second)
        }),
{
    let given = answers_of(policy, rules, terminals).priority;
    lemma_rank_bound(given, column, first, given.len());
    lemma_rank_bound(given, column, second, given.len());
    lemma_ranks_differ(given, column, first, second);
}

/// The priorities that the construction is told for a grammar leave no
/// two productions tied: a conflict between two reductions cannot be one
/// of two productions of the same priority.
pub proof fn lemma_no_tie<P: ConflictPolicy>(
    policy: &P,
    grammar: GrammarRulesView,
    conflict: RawConflictView,
)
    requires
        grammar.rules.len() < i32::MAX,
        tied(
            augmented_rules(grammar),
            decisions_of(policy, grammar.rules, terminals_of(grammar)),
            conflict,
        ),
    ensures
        conflict.second is None,
{
    if let Some(second) = conflict.second {
        let rules = augmented_rules(grammar);
        let told = decisions_of(policy, grammar.rules, terminals_of(grammar));
        let given = answers_of(policy, grammar.rules, terminals_of(grammar)).priority;
        let (i, j) = choose|i: int, j: int|
            0 <= i < rules.len() && 0 <= j < rules.len() && i != j && (#[trigger] rules[i]).number
                == conflict.first && (#[trigger] rules[j]).number == second;
        assert(rules[i].number == i);
        assert(rules[j].number == j);
        match conflict.token {
            Some(t) => {
                lemma_rank_bound(given, t as int, i, given.len());
                lemma_rank_bound(given, t as int, j, given.len());
                lemma_ranks_differ(given, t as int, i, j);
                assert(told.priority[i][t as int] == rank(given, t as int, i, given.len()) as i32);
                assert(told.priority[j][t as int] == rank(given, t as int, j, given.len()) as i32);
            },
            None => {
                assert(told.priority_at_end[i] == (rules.len() - 1 - i) as i32);
                assert(told.priority_at_end[j] == (rules.len() - 1 - j) as i32);
            },
        }
    }
}

/// The rows of a table of numbers.
pub open spec fn rows(table: Seq<Vec<i32>>) -> Seq<Seq<i32>> {
    Seq::new(table.len(), |i: int| table[i]@)
}

/// The rank of the production at `rule` among the first `count` at the
/// column `column`.
fn rank_at(given: &Vec<Vec<i32>>, column: usize, rule: usize, count: usize) -> (r: i32)
    requires
        count <= given.len(),
        count <= i32::MAX,
        rule < count,
        forall|k: int| 0 <= k < given.len() ==> column < (#[trigger] given@[k]).len(),
    ensures
        r == rank(rows(given@), column as int, rule as int, count as nat),
{
    let ghost table = rows(given@);
    let own = given[rule][column];
    let mut found: i32 = 0;
    let mut other: usize = 0;
    while other < count
        invariant
            other <= count,
            count <= given.len(),
            count <= i32::MAX,
            rule < count,
            table == rows(given@),
            own == table[rule as int][column as int],
            forall|k: int| 0 <= k < given.len() ==> column < (#[trigger] given@[k]).len(),
            found == rank(table, column as int, rule as int, other as nat),
            found <= other,
        decreases count - other,
    {
        let against = given[other][column];
        assert(against == table[other as int][column as int]);
        if own > against || (own == against && rule < other) {
            found += 1;
        }
        other += 1;
    }
    found
}

/// The priorities `given` as ranks.
fn rank_all(given: &Vec<Vec<i32>>, width: usize) -> (r: Vec<Vec<i32>>)
    requires
        given.len() <= i32::MAX,
        forall|k: int| 0 <= k < given.len() ==> (#[trigger] given@[k]).len() == width,
    ensures
        rows(r@) == ranked(rows(given@)),
{
    let ghost table = rows(given@);
    let ghost wanted = ranked(table);
    let mut ranks: Vec<Vec<i32>> = Vec::new();
    let mut i: usize = 0;
    while i < given.len()
        invariant
            i <= given.len(),
            given.len() <= i32::MAX,
            table == rows(given@),
            wanted == ranked(table),
            forall|k: int| 0 <= k < given.len() ==> (#[trigger] given@[k]).len() == width,
            ranks.len() == i,
            forall|k: int| 0 <= k < i ==> (#[trigger] ranks@[k])@ == wanted[k],
        decreases given.len() - i,
    {
        let mut row: Vec<i32> = Vec::new();
        let mut t: usize = 0;
        assert(table[i as int].len() == width);
        while t < width
            invariant
                t <= width,
                i < given.len(),
                given.len() <= i32::MAX,
                table == rows(given@),
                wanted == ranked(table),
                forall|k: int| 0 <= k < given.len() ==> (#[trigger] given@[k]).len() == width,
                row.len() == t,
                forall|k: int| 0 <= k < t ==> #[trigger] row@[k] == wanted[i as int][k],
            decreases width - t,
        {
            row.push(rank_at(given, t, i, given.len()));
            t += 1;
        }
        assert(row@ =~= wanted[i as int]);
        ranks.push(row);
        i += 1;
    }
    assert(rows(ranks@) =~= wanted);
    ranks
}

/// The ranks of `count` productions by their places alone.
fn rank_by_place(count: usize) -> (r: Vec<i32>)
    requires
        count <= i32::MAX,
    ensures
        r@ == ranked_by_place(count as nat),
{
    let mut ranks: Vec<i32> = Vec::new();
    let mut place: usize = 0;
    while place < count
        invariant
            place <= count,
            count <= i32::MAX,
            ranks.len() == place,
            forall|k: int| 0 <= k < place ==> #[trigger] ranks@[k] == count - 1 - k,
        decreases count - place,
    {
        ranks.push((count - 1 - place) as i32);
        place += 1;
    }
    assert(ranks@ =~= ranked_by_place(count as nat));
    ranks
}

/// Asks `policy` about each production at each terminal and at the end of
/// the input, and ranks the productions by its answers.
pub fn decide<P: ConflictPolicy>(policy: &P, rules: &Vec<Rule>, terminals: &Vec<String>) -> (r:
    Decisions)
    requires
        rules.len() < i32::MAX,
        terminals.len() < usize::MAX,
    ensures
        r@ == decisions_of(policy, views(rules@), views(terminals@)),
{
    let answers = ask(policy, rules, terminals);
    let ghost given = answers@.priority;
    assert(given =~= rows(answers.priority@));
    let priority = rank_all(&answers.priority, terminals.len() + 1);
    let priority_at_end = rank_by_place(rules.len() + 1);
    let decisions = Decisions {
        reduce: answers.reduce,
        reduce_at_end: answers.reduce_at_end,
        priority,
        priority_at_end,
    };
    proof {
        let wanted = decisions_of(policy, views(rules@), views(terminals@));
        assert(decisions@.priority =~= rows(priority@));
        assert(decisions@.reduce =~= wanted.reduce);
    }
    decisions
}

/// A parse table as a mathematical value: the productions of the grammar,
/// the number of the left-hand side of each, the names of the terminals and
/// of the non-terminals by number, and the states. The terminal behind the
/// last stands for the end of the input.
pub ghost struct TableView {
    pub rules: Seq<RuleView>,
    pub lhs: Seq<usize>,
    pub terminals: Seq<Seq<char>>,
    pub non_terminals: Seq<Seq<char>>,
    pub states: Seq<RawStateView>,
}

/// What the first pair of `pairs` with the key `key` holds.
pub open spec fn entry<V>(pairs: Seq<(usize, V)>, key: usize) -> Option<V>
    decreases pairs.len(),
{
    if pairs.len() == 0 {
        None
    } else if pairs[0].0 == key {
        Some(pairs[0].1)
    } else {
        entry(pairs.drop_first(), key)
    }
}

/// Whether the end of the input is accepted in `state`: the state shifts
/// the end marker `end`, and what it comes to accepts.
pub open spec fn accepting(states: Seq<RawStateView>, state: int, end: usize) -> bool {
    0 <= state < states.len() && match entry(states[state].lookahead, end) {
        Some(RawAction::Shift(after)) => after < states.len() && states[after as int].eof == Some(
            RawAction::Accept,
        ),
        _ => false,
    }
}

/// Whether `action` can stand in a table of `states` states for a grammar
/// of `rules` productions: it shifts to a state other than the first, or
/// reduces by a production of the grammar.
pub open spec fn action_fits(action: RawAction, states: nat, rules: nat) -> bool {
    match action {
        RawAction::Shift(target) => 0 < target < states,
        RawAction::Reduce(rule) => rule < rules,
        RawAction::Accept => false,
    }
}

/// Whether the action at the place `i` of the state `s` fits: the action
/// itself does, the terminals of the state come in rising order, and no
/// token is shifted into a state that accepts.
pub open spec fn lookahead_fits_at(
    states: Seq<RawStateView>,
    s: int,
    i: int,
    rules: nat,
    end: usize,
) -> bool {
    let actions = states[s].lookahead;
    &&& action_fits(actions[i].1, states.len(), rules)
    &&& i + 1 < actions.len() ==> actions[i].0 < actions[i + 1].0
    &&& actions[i].0 != end ==> match actions[i].1 {
        RawAction::Shift(target) => !accepting(states, target as int, end),
        _ => true,
    }
}

/// Whether the next state at the place `i` of the state `s` fits: it is a
/// state other than the first, and it accepts only where it comes after
/// the start symbol in the first state.
pub open spec fn goto_fits_at(states: Seq<RawStateView>, s: int, i: int, end: usize) -> bool {
    let target = states[s].goto[i].1;
    &&& 0 < target < states.len()
    &&& accepting(states, target as int, end) ==> s == 0 && states[s].goto[i].0 == 0
}

/// Whether the state `s` fits.
pub open spec fn state_fits(states: Seq<RawStateView>, s: int, rules: nat, end: usize) -> bool {
    &&& forall|i: int|
        0 <= i < states[s].lookahead.len() ==> #[trigger] lookahead_fits_at(states, s, i, rules, end)
    &&& forall|i: int| 0 <= i < states[s].goto.len() ==> #[trigger] goto_fits_at(states, s, i, end)
}

/// Whether a table fits together. Then each action and each next state
/// leads to a state of the table, each reduction is by a production of the
/// grammar, no state holds two actions for one terminal, and the end of the
/// input is accepted only in a state that the first state goes to after the
/// start symbol, which has the number 0.
pub open spec fn well_formed(table: TableView) -> bool {
    &&& table.states.len() > 0
    &&& table.terminals.len() < usize::MAX
    &&& table.lhs.len() == table.rules.len()
    &&& !accepting(table.states, 0, table.terminals.len() as usize)
    &&& forall|r: int|
        0 <= r < table.lhs.len() ==> #[trigger] table.lhs[r] < table.non_terminals.len()
            && table.non_terminals[table.lhs[r] as int] == table.rules[r].non_terminal
    &&& forall|s: int|
        0 <= s < table.states.len() ==> #[trigger] state_fits(
            table.states,
            s,
            table.rules.len(),
            table.terminals.len() as usize,
        )
}

/// No state of a table that fits together holds two actions for one
/// terminal: the terminals of its actions rise from place to place. So a
/// token is shifted in one way at most.
pub proof fn lemma_one_action_per_terminal(table: TableView, s: int, i: int, j: int)
    requires
        well_formed(table),
        0 <= s < table.states.len(),
        0 <= i < j < table.states[s].lookahead.len(),
    ensures
        table.states[s].lookahead[i].0 < table.states[s].lookahead[j].0,
    decreases j - i,
{
    let end = table.terminals.len() as usize;
    assert(state_fits(table.states, s, table.rules.len(), end));
    assert(lookahead_fits_at(table.states, s, j - 1, table.rules.len(), end));
    if i < j - 1 {
        lemma_one_action_per_terminal(table, s, i, j - 1);
    }
}

/// The action of `table` in the state `state` for a token of the terminal
/// named `kind`. For the end of the input it is to accept, or a reduction;
/// the end of the input is never shifted.
pub open spec fn action_for(table: TableView, state: int, kind: Seq<char>) -> Option<RawAction> {
    let end = table.terminals.len() as usize;
    if kind == eof_name() {
        match entry(table.states[state].lookahead, end) {
            Some(RawAction::Reduce(rule)) => Some(RawAction::Reduce(rule)),
            Some(RawAction::Shift(_)) => if accepting(table.states, state, end) {
                Some(RawAction::Accept)
            } else {
                None
            },
            _ => None,
        }
    } else if place(table.terminals, kind) < table.terminals.len() {
        entry(table.states[state].lookahead, place(table.terminals, kind) as usize)
    } else {
        None
    }
}

/// The state that `table` goes to from `state` after a reduction by the
/// production `rule`.
pub open spec fn goto_for(table: TableView, state: int, rule: int) -> Option<usize> {
    entry(table.states[state].goto, table.lhs[rule])
}

/// What the first pair of `pairs` with the key `key` holds.
pub fn lookup<V: Copy>(pairs: &Vec<(usize, V)>, key: usize) -> (r: Option<V>)
    ensures
        r == entry(pairs@, key),
{
    let mut i: usize = 0;
    assert(pairs@.skip(0) =~= pairs@);
    while i < pairs.len()
        invariant
            i <= pairs.len(),
            entry(pairs@, key) == entry(pairs@.skip(i as int), key),
        decreases pairs.len() - i,
    {
        proof {
            assert(pairs@.skip(i as int)[0] == pairs@[i as int]);
            assert(pairs@.skip(i as int).drop_first() =~= pairs@.skip(i + 1));
        }
        if pairs[i].0 == key {
            return Some(pairs[i].1);
        }
        i += 1;
    }
    assert(pairs@.skip(i as int) =~= Seq::<(usize, V)>::empty());
    None
}

/// Whether the end of the input is accepted in `state`.
pub fn accepts(states: &Vec<RawState>, state: usize, end: usize) -> (b: bool)
    ensures
        b == accepting(views(states@), state as int, end),
{
    if state >= states.len() {
        return false;
    }
    match lookup(&states[state].lookahead, end) {
        Some(RawAction::Shift(after)) => {
            if after < states.len() {
                match states[after].eof {
                    Some(RawAction::Accept) => true,
                    _ => false,
                }
            } else {
                false
            }
        },
        _ => false,
    }
}

/// Whether the state `s` fits.
fn check_state(states: &Vec<RawState>, s: usize, rules: usize, end: usize) -> (b: bool)
    requires
        s < states.len(),
    ensures
        b == state_fits(views(states@), s as int, rules as nat, end),
{
    let ghost shown = views(states@);
    let state = &states[s];
    let mut i: usize = 0;
    while i < state.lookahead.len()
        invariant
            i <= state.lookahead.len(),
            s < states.len(),
            shown == views(states@),
            *state == states@[s as int],
            forall|k: int| 0 <= k < i ==> #[trigger] lookahead_fits_at(shown, s as int, k, rules as nat, end),
        decreases state.lookahead.len() - i,
    {
        let (key, action) = state.lookahead[i];
        let fits = match action {
            RawAction::Shift(target) => 0 < target && target < states.len(),
            RawAction::Reduce(rule) => rule < rules,
            RawAction::Accept => false,
        };
        let rising = i + 1 >= state.lookahead.len() || key < state.lookahead[i + 1].0;
        let entered = if key != end {
            match action {
                RawAction::Shift(target) => !accepts(states, target, end),
                _ => true,
            }
        } else {
            true
        };
        if !(fits && rising && entered) {
            assert(!lookahead_fits_at(shown, s as int, i as int, rules as nat, end));
            return false;
        }
        assert(lookahead_fits_at(shown, s as int, i as int, rules as nat, end));
        i += 1;
    }
    let mut j: usize = 0;
    while j < state.goto.len()
        invariant
            j <= state.goto.len(),
            s < states.len(),
            shown == views(states@),
            *state == states@[s as int],
            forall|k: int|
                0 <= k < state.lookahead.len() ==> #[trigger] lookahead_fits_at(
                    shown,
                    s as int,
                    k,
                    rules as nat,
                    end,
                ),
            forall|k: int| 0 <= k < j ==> #[trigger] goto_fits_at(shown, s as int, k, end),
        decreases state.goto.len() - j,
    {
        let target = state.goto[j].1;
        let fits = 0 < target && target < states.len();
        let entered = (s == 0 && state.goto[j].0 == 0) || !accepts(states, target, end);
        if !(fits && entered) {
            assert(!goto_fits_at(shown, s as int, j as int, end));
            return false;
        }
        assert(goto_fits_at(shown, s as int, j as int, end));
        j += 1;
    }
    true
}

/// Whether all the states fit.
fn check_states(states: &Vec<RawState>, rules: usize, end: usize) -> (b: bool)
    ensures
        b == forall|s: int|
            0 <= s < states.len() ==> #[trigger] state_fits(views(states@), s, rules as nat, end),
{
    let mut s: usize = 0;
    while s < states.len()
        invariant
            s <= states.len(),
            forall|k: int| 0 <= k < s ==> #[trigger] state_fits(views(states@), k, rules as nat, end),
        decreases states.len() - s,
    {
        if !check_state(states, s, rules, end) {
            return false;
        }
        s += 1;
    }
    true
}

/// An LALR(1) parse table.
#[derive(Debug)]
pub struct ParseTable {
    rules: Vec<Rule>,
    lhs: Vec<usize>,
    terminals: Vec<String>,
    non_terminals: Vec<String>,
    states: Vec<RawState>,
}

/// The conflict `conflict` of a grammar with the terminals `terminals`,
/// with the name of its terminal. The end marker stands for the end of the
/// input.
pub open spec fn named_conflict(conflict: RawConflictView, terminals: Seq<Seq<char>>) -> ConflictView {
    ConflictView {
        items: conflict.items,
        token: match conflict.token {
            Some(number) => if number < terminals.len() {
                Some(terminals[number as int])
            } else {
                None
            },
            None => None,
        },
        reduce: conflict.first,
        other: conflict.second,
    }
}

/// The table of the grammar `grammar` with the states `states`.
pub open spec fn table_with(grammar: GrammarRulesView, states: Seq<RawStateView>) -> TableView {
    TableView {
        rules: grammar.rules,
        lhs: numbered_lhs(grammar),
        terminals: terminals_of(grammar),
        non_terminals: non_terminals_of(grammar),
        states,
    }
}

/// What becomes of what the construction gave for `grammar`: a conflict is
/// an error that names its terminal; states make a table where they fit
/// together, and are an error where they do not.
pub open spec fn table_result(
    grammar: GrammarRulesView,
    outcome: Result<Seq<RawStateView>, RawConflictView>,
) -> Result<TableView, GrammarErrorView> {
    match outcome {
        Err(conflict) => Err(
            GrammarErrorView::Conflict(named_conflict(conflict, terminals_of(grammar))),
        ),
        Ok(states) => if well_formed(table_with(grammar, states)) {
            Ok(table_with(grammar, states))
        } else {
            Err(GrammarErrorView::InvalidTable)
        },
    }
}

/// What the outcome of the construction holds.
pub open spec fn outcome_view(outcome: Result<Vec<RawState>, RawConflict>) -> Result<
    Seq<RawStateView>,
    RawConflictView,
> {
    match outcome {
        Ok(states) => Ok(views(states@)),
        Err(conflict) => Err(conflict@),
    }
}

/// Whether `name` is the left-hand side of one of `rules`.
pub open spec fn has_production(rules: Seq<RuleView>, name: Seq<char>) -> bool {
    exists|i: int| 0 <= i < rules.len() && (#[trigger] rules[i]).non_terminal == name
}

/// The first of `names` from the place `from` on that is the left-hand
/// side of none of `rules`.
pub open spec fn first_undefined(names: Seq<Seq<char>>, rules: Seq<RuleView>, from: int) -> Option<
    Seq<char>,
>
    decreases names.len() - from,
{
    if from < 0 || from >= names.len() {
        None
    } else if !has_production(rules, names[from]) {
        Some(names[from])
    } else {
        first_undefined(names, rules, from + 1)
    }
}

/// Whether the grammar has more productions than can be ranked, or more
/// symbols than can be numbered.
pub open spec fn too_large(grammar: GrammarRulesView) -> bool {
    ||| grammar.rules.len() >= i32::MAX
    ||| terminals_of(grammar).len() >= usize::MAX
    ||| non_terminals_of(grammar).len() >= usize::MAX
}

/// The production that is added for the start symbol of a grammar with
/// `terminals` terminals, `non_terminals` non-terminals and `rules`
/// productions: a new non-terminal derives the start symbol and then the
/// end marker.
pub open spec fn added_rule(terminals: nat, non_terminals: nat, rules: nat) -> RawRuleView {
    RawRuleView {
        lhs: non_terminals as usize,
        rhs: seq![
            RawSymbol { terminal: false, index: 0 },
            RawSymbol { terminal: true, index: terminals as usize },
        ],
        number: rules as usize,
    }
}

/// The numbered productions of `grammar`, each with its place as its
/// number, and behind them the production that is added for the start
/// symbol.
pub open spec fn augmented_rules(grammar: GrammarRulesView) -> Seq<RawRuleView> {
    Seq::new(
        grammar.rules.len() + 1,
        |i: int|
            if i < grammar.rules.len() {
                RawRuleView {
                    lhs: numbered_lhs(grammar)[i],
                    rhs: numbered_rules(grammar)[i],
                    number: i as usize,
                }
            } else {
                added_rule(
                    terminals_of(grammar).len(),
                    non_terminals_of(grammar).len(),
                    grammar.rules.len(),
                )
            },
    )
}

/// The table of `grammar` under `policy`, or why there is none: the
/// grammar is too large; or a non-terminal has no production, or cannot be
/// reached from the start symbol, which is told of the first such in the
/// order of the numbers; or the construction ran into a conflict; or what
/// it gave does not fit together.
pub open spec fn built<P: ConflictPolicy>(grammar: GrammarRulesView, policy: &P) -> Result<
    TableView,
    GrammarErrorView,
> {
    if too_large(grammar) {
        Err(GrammarErrorView::TooLarge)
    } else {
        match first_undefined(non_terminals_of(grammar), grammar.rules, 0) {
            Some(name) => Err(GrammarErrorView::MissingSymbol(name)),
            None => match first_unreachable(
                numbered_lhs(grammar),
                numbered_rules(grammar),
                non_terminals_of(grammar).len() as usize,
                0,
            ) {
                Some(n) => Err(
                    GrammarErrorView::UnreachableSymbol(non_terminals_of(grammar)[n as int]),
                ),
                None => table_result(
                    grammar,
                    lalr1_outcome(
                        augmented_rules(grammar),
                        non_terminals_of(grammar).len() as usize,
                        decisions_of(policy, grammar.rules, terminals_of(grammar)),
                    ),
                ),
            },
        }
    }
}

/// The number of the first non-terminal that has no production.
fn undefined_symbol(grammar: &GrammarRules, numbered: &NumberedGrammar) -> (r: Option<usize>)
    requires
        views(numbered.non_terminals@) == non_terminals_of(grammar@),
        numbered.lhs@ == numbered_lhs(grammar@),
        forall|i: int|
            0 <= i < numbered.lhs.len() ==> #[trigger] numbered.lhs@[i] < numbered.non_terminals.len(),
    ensures
        match r {
            Some(n) => n < numbered.non_terminals.len() && first_undefined(
                non_terminals_of(grammar@),
                grammar@.rules,
                0,
            ) == Some(numbered.non_terminals@[n as int]@),
            None => first_undefined(non_terminals_of(grammar@), grammar@.rules, 0) is None,
        },
{
    let ghost names = non_terminals_of(grammar@);
    let ghost rules = grammar@.rules;
    let count = numbered.non_terminals.len();
    let mut defined: Vec<bool> = Vec::new();
    let mut n: usize = 0;
    while n < count
        invariant
            n <= count,
            defined.len() == n,
            forall|k: int| 0 <= k < n ==> #[trigger] defined@[k] == false,
        decreases count - n,
    {
        defined.push(false);
        n += 1;
    }
    let mut i: usize = 0;
    while i < numbered.lhs.len()
        invariant
            i <= numbered.lhs.len(),
            defined.len() == count,
            count == numbered.non_terminals.len(),
            forall|k: int|
                0 <= k < numbered.lhs.len() ==> #[trigger] numbered.lhs@[k]
                    < numbered.non_terminals.len(),
            forall|m: int|
                0 <= m < count ==> (#[trigger] defined@[m] <==> exists|k: int|
                    0 <= k < i && #[trigger] numbered.lhs@[k] == m),
        decreases numbered.lhs.len() - i,
    {
        let ghost before = defined@;
        let at = numbered.lhs[i];
        defined[at] = true;
        proof {
            assert forall|m: int| 0 <= m < count implies (#[trigger] defined@[m] <==> exists|k: int|
                0 <= k < i + 1 && #[trigger] numbered.lhs@[k] == m) by {
                if m == at {
                    assert(numbered.lhs@[i as int] == m);
                } else {
                    assert(defined@[m] == before[m]);
                    if before[m] {
                        let k = choose|k: int| 0 <= k < i && #[trigger] numbered.lhs@[k] == m;
                        assert(numbered.lhs@[k] == m);
                    }
                    if exists|k: int| 0 <= k < i + 1 && #[trigger] numbered.lhs@[k] == m {
                        let k = choose|k: int| 0 <= k < i + 1 && #[trigger] numbered.lhs@[k] == m;
                        assert(k < i);
                    }
                }
            }
        }
        i += 1;
    }
    proof {
        lemma_distinct(seq![grammar@.start_symbol] + mentioned_non_terminals(rules));
        assert forall|m: int| 0 <= m < count implies (#[trigger] defined@[m] <==> has_production(
            rules,
            names[m],
        )) by {
            lemma_place(names, names[m]);
            if defined@[m] {
                let k = choose|k: int|
                    0 <= k < numbered.lhs.len() && #[trigger] numbered.lhs@[k] == m;
                lemma_place(names, rules[k].non_terminal);
                assert(rules[k].non_terminal == names[m]);
            }
            if has_production(rules, names[m]) {
                let k = choose|k: int|
                    0 <= k < rules.len() && (#[trigger] rules[k]).non_terminal == names[m];
                let found = place(names, names[m]);
                if found < m {
                    assert(names[found] != names[m]);
                }
                assert(numbered.lhs@[k] == m);
            }
        }
    }
    let mut m: usize = 0;
    while m < count
        invariant
            m <= count,
            defined.len() == count,
            count == names.len(),
            count == numbered.non_terminals.len(),
            names == views(numbered.non_terminals@),
            names == non_terminals_of(grammar@),
            rules == grammar@.rules,
            forall|k: int|
                0 <= k < count ==> (#[trigger] defined@[k] <==> has_production(rules, names[k])),
            first_undefined(names, rules, 0) == first_undefined(names, rules, m as int),
        decreases count - m,
    {
        if !defined[m] {
            assert(!has_production(rules, names[m as int]));
            assert(names[m as int] == numbered.non_terminals@[m as int]@);
            assert(first_undefined(names, rules, m as int) == Some(names[m as int]));
            return Some(m);
        }
        assert(has_production(rules, names[m as int]));
        m += 1;
    }
    None
}

/// Hands the numbered grammar to the construction, with the production
/// that is added for the start symbol.
fn numbered_to_lalr(grammar: &GrammarRules, numbered: &NumberedGrammar) -> (r: lalr::Grammar<
    usize,
    usize,
    usize,
>)
    requires
        !too_large(grammar@),
        views(numbered.terminals@) == terminals_of(grammar@),
        views(numbered.non_terminals@) == non_terminals_of(grammar@),
        numbered.lhs@ == numbered_lhs(grammar@),
        rhs_views(numbered.rhs@) == numbered_rules(grammar@),
    ensures
        held_rules(r) == augmented_rules(grammar@),
        held_start(r) == non_terminals_of(grammar@).len(),
{
    let ghost wanted = augmented_rules(grammar@);
    let count = numbered.lhs.len();
    let mut made = new_grammar(numbered.non_terminals.len());
    let mut i: usize = 0;
    assert(held_rules(made) =~= wanted.take(0));
    assert(numbered.rhs.len() == count) by {
        assert(rhs_views(numbered.rhs@).len() == numbered.rhs.len());
    }
    while i < count
        invariant
            i <= count,
            count == numbered.lhs.len(),
            count == numbered.rhs.len(),
            count == grammar@.rules.len(),
            wanted == augmented_rules(grammar@),
            numbered.lhs@ == numbered_lhs(grammar@),
            rhs_views(numbered.rhs@) == numbered_rules(grammar@),
            held_rules(made) == wanted.take(i as int),
            held_start(made) == numbered.non_terminals.len(),
        decreases count - i,
    {
        proof {
            assert(rhs_views(numbered.rhs@)[i as int] == numbered.rhs@[i as int]@);
            assert(wanted.take(i + 1) =~= wanted.take(i as int).push(wanted[i as int]));
        }
        add_rule(&mut made, numbered.lhs[i], &numbered.rhs[i], i);
        i += 1;
    }
    let mut extra: Vec<RawSymbol> = Vec::new();
    extra.push(RawSymbol { terminal: false, index: 0 });
    extra.push(RawSymbol { terminal: true, index: numbered.terminals.len() });
    proof {
        assert(extra@ =~= added_rule(
            terminals_of(grammar@).len(),
            non_terminals_of(grammar@).len(),
            grammar@.rules.len(),
        ).rhs);
        assert(wanted =~= wanted.take(count as int).push(wanted[count as int]));
    }
    add_rule(&mut made, numbered.non_terminals.len(), &extra, count);
    made
}

/// Reads the states out of a table of the construction.
fn read_states(table: &lalr::LR1ParseTable<'_, usize, usize, usize>) -> (r: Vec<RawState>)
    ensures
        views(r@) == held_states(*table),
{
    let count = state_count(table);
    let mut states: Vec<RawState> = Vec::new();
    let mut s: usize = 0;
    while s < count
        invariant
            s <= count,
            count == held_states(*table).len(),
            states.len() == s,
            forall|k: int| 0 <= k < s ==> (#[trigger] states@[k])@ == held_states(*table)[k],
        decreases count - s,
    {
        states.push(state_at(table, s));
        s += 1;
    }
    assert(views(states@) =~= held_states(*table));
    states
}

impl ParseTable {
    /// What the table holds.
    pub closed spec fn view(&self) -> TableView {
        TableView {
            rules: views(self.rules@),
            lhs: self.lhs@,
            terminals: views(self.terminals@),
            non_terminals: views(self.non_terminals@),
            states: views(self.states@),
        }
    }

    /// Whether the table fits together.
    pub open spec fn wf(&self) -> bool {
        well_formed(self@)
    }

    /// What a result holds: the table and the error by their views.
    pub open spec fn result_view(r: Result<ParseTable, GrammarError>) -> Result<
        TableView,
        GrammarErrorView,
    > {
        match r {
            Ok(table) => Ok(table@),
            Err(e) => Err(e@),
        }
    }

    /// Builds the LALR(1) table of `grammar_rules`. Conflicts are settled
    /// as `policy` says: where it does not let the table reduce, the table
    /// shifts; of two productions that could both be reduced by, the one of
    /// the higher priority is taken, or else the one declared earlier. A
    /// conflict that is left is one between a shift and a reduction, and
    /// is an error.
    ///
    /// # Errors
    /// The grammar has a non-terminal without a production or one that
    /// cannot be reached from the start symbol, or is not LALR(1) under
    /// the policy.
    pub fn new<P: ConflictPolicy>(grammar_rules: &GrammarRules, policy: &P) -> (r: Result<
        ParseTable,
        GrammarError,
    >)
        ensures
            ParseTable::result_view(r) == built(grammar_rules@, policy),
            r matches Ok(table) ==> table.wf(),
            r matches Err(GrammarError::Conflict(conflict)) ==> conflict.other is None,
    {
        let numbered = number_grammar(grammar_rules);
        if grammar_rules.rules.len() >= 0x7fff_ffff || numbered.terminals.len() == usize::MAX
            || numbered.non_terminals.len() == usize::MAX {
            return Err(GrammarError::TooLarge);
        }
        if let Some(n) = undefined_symbol(grammar_rules, &numbered) {
            return Err(GrammarError::MissingSymbol(numbered.non_terminals[n].clone()));
        }
        assert(rhs_views(numbered.rhs@).len() == numbered.rhs.len());
        if let Some(n) = unreachable_symbol(
            &numbered.lhs,
            &numbered.rhs,
            numbered.non_terminals.len(),
        ) {
            return Err(GrammarError::UnreachableSymbol(numbered.non_terminals[n].clone()));
        }
        let grammar = numbered_to_lalr(grammar_rules, &numbered);
        let decisions = decide(policy, &grammar_rules.rules, &numbered.terminals);
        proof {
            let rules = augmented_rules(grammar_rules@);
            let terminals = terminals_of(grammar_rules@).len();
            let non_terminals = non_terminals_of(grammar_rules@).len();
            let count = grammar_rules@.rules.len();
            assert(rhs_views(numbered.rhs@).len() == numbered.rhs.len());
            assert forall|i: int, j: int|
                0 <= i < rules.len() - 1 && 0 <= j < rules[i].rhs.len() implies (#[trigger] rules[i].rhs[j])
                != rules.last().rhs[1] && rules[i].rhs[j] != (RawSymbol {
                terminal: false,
                index: non_terminals as usize,
            }) by {
                assert(rhs_views(numbered.rhs@)[i] == numbered.rhs@[i]@);
                assert(rules[i].rhs[j] == numbered.rhs@[i]@[j]);
            }
            assert forall|i: int| 0 <= i < rules.len() - 1 implies (#[trigger] rules[i]).lhs
                != non_terminals as usize by {
                assert(rules[i].lhs == numbered.lhs@[i]);
            }
            assert(augmented(rules, non_terminals as usize));
            assert forall|i: int, j: int, k: int|
                0 <= i < rules.len() && 0 <= j < rules[i].rhs.len() && 0 <= k
                    < decisions@.reduce.len() && (#[trigger] rules[i].rhs[j]).terminal implies rules[i].rhs[j].index
                < (#[trigger] decisions@.reduce[k]).len() by {
                if i < count {
                    assert(rhs_views(numbered.rhs@)[i] == numbered.rhs@[i]@);
                    assert(rules[i].rhs[j] == numbered.rhs@[i]@[j]);
                }
            }
            assert forall|i: int, j: int, k: int|
                0 <= i < rules.len() && 0 <= j < rules[i].rhs.len() && 0 <= k
                    < decisions@.priority.len() && (#[trigger] rules[i].rhs[j]).terminal implies rules[i].rhs[j].index
                < (#[trigger] decisions@.priority[k]).len() by {
                if i < count {
                    assert(rhs_views(numbered.rhs@)[i] == numbered.rhs@[i]@);
                    assert(rules[i].rhs[j] == numbered.rhs@[i]@[j]);
                }
            }
            assert(decided(rules, decisions@));
        }
        let outcome = match lalr1(&grammar, &decisions) {
            Ok(table) => Ok(read_states(&table)),
            Err(conflict) => {
                let parts = conflict_parts(&conflict);
                proof {
                    lemma_no_tie(policy, grammar_rules@, parts@);
                }
                Err(parts)
            },
        };
        ParseTable::from_outcome(grammar_rules, outcome)
    }

    /// Makes the table of `grammar` from what the construction gave for it.
    pub fn from_outcome(grammar: &GrammarRules, outcome: Result<Vec<RawState>, RawConflict>) -> (r:
        Result<ParseTable, GrammarError>)
        ensures
            ParseTable::result_view(r) == table_result(grammar@, outcome_view(outcome)),
            r matches Ok(table) ==> table.wf(),
    {
        let numbered = number_grammar(grammar);
        let NumberedGrammar { terminals, non_terminals, lhs, rhs: _ } = numbered;
        match outcome {
            Err(conflict) => {
                let RawConflict { items, token, first, second } = conflict;
                let name = match token {
                    Some(number) => if number < terminals.len() {
                        Some(terminals[number].clone())
                    } else {
                        None
                    },
                    None => None,
                };
                let error = GrammarError::Conflict(
                    Conflict { items, token: name, reduce: first, other: second },
                );
                assert(error@ == GrammarErrorView::Conflict(
                    named_conflict(conflict@, terminals_of(grammar@)),
                ));
                Err(error)
            },
            Ok(states) => {
                let ghost table = table_with(grammar@, views(states@));
                let sound = states.len() > 0 && terminals.len() < usize::MAX && !accepts(
                    &states,
                    0,
                    terminals.len(),
                ) && check_states(&states, grammar.rules.len(), terminals.len());
                proof {
                    assert(table.lhs.len() == table.rules.len());
                    assert forall|r: int| 0 <= r < table.lhs.len() implies #[trigger] table.lhs[r]
                        < table.non_terminals.len() && table.non_terminals[table.lhs[r] as int]
                        == table.rules[r].non_terminal by {
                        assert(lhs@[r] < non_terminals.len());
                        lemma_numbered(grammar@, r);
                        lemma_place(table.non_terminals, table.rules[r].non_terminal);
                    }
                    assert(table.rules.len() == grammar.rules.len());
                    assert(table.terminals.len() == terminals.len());
                    assert(table.states.len() == states.len());
                    assert(table.terminals.len() as usize == terminals.len());
                    if states.len() > 0 && terminals.len() < usize::MAX && !accepting(
                        table.states,
                        0,
                        table.terminals.len() as usize,
                    ) {
                        assert(sound == forall|s: int|
                            0 <= s < table.states.len() ==> #[trigger] state_fits(
                                table.states,
                                s,
                                table.rules.len(),
                                table.terminals.len() as usize,
                            ));
                    }
                    assert(sound == well_formed(table));
                }
                if sound {
                    let rules = grammar.clone().rules;
                    let made = ParseTable { rules, lhs, terminals, non_terminals, states };
                    assert(made@ == table);
                    Ok(made)
                } else {
                    Err(GrammarError::InvalidTable)
                }
            },
        }
    }

    /// The number of states.
    pub fn state_count(&self) -> (n: usize)
        ensures
            n == self@.states.len(),
    {
        self.states.len()
    }

    /// The states of the table.
    pub fn states(&self) -> (r: &Vec<RawState>)
        ensures
            views(r@) == self@.states,
    {
        &self.states
    }

    /// The names of the terminals, each at its number.
    pub fn terminals(&self) -> (r: &Vec<String>)
        ensures
            views(r@) == self@.terminals,
    {
        &self.terminals
    }

    /// The names of the non-terminals, each at its number.
    pub fn non_terminals(&self) -> (r: &Vec<String>)
        ensures
            views(r@) == self@.non_terminals,
    {
        &self.non_terminals
    }

    /// The number of productions.
    pub fn rule_count(&self) -> (n: usize)
        ensures
            n == self@.rules.len(),
    {
        self.rules.len()
    }

    /// The production `rule` of the grammar.
    pub fn rule(&self, rule: usize) -> (r: &Rule)
        requires
            rule < self@.rules.len(),
        ensures
            r@ == self@.rules[rule as int],
    {
        &self.rules[rule]
    }

    /// The action in the state `state` for a token of the terminal `kind`.
    pub fn action(&self, state: usize, kind: &Terminal) -> (r: Option<RawAction>)
        requires
            self.wf(),
            state < self@.states.len(),
        ensures
            r == action_for(self@, state as int, kind@),
    {
        let end = self.terminals.len();
        if kind.is_eof() {
            match lookup(&self.states[state].lookahead, end) {
                Some(RawAction::Reduce(rule)) => Some(RawAction::Reduce(rule)),
                Some(RawAction::Shift(_)) => if accepts(&self.states, state, end) {
                    Some(RawAction::Accept)
                } else {
                    None
                },
                _ => None,
            }
        } else {
            match find(&self.terminals, &kind.0) {
                Some(at) => lookup(&self.states[state].lookahead, at),
                None => None,
            }
        }
    }

    /// The state that the table goes to from `state` after a reduction by
    /// the production `rule`.
    pub fn goto(&self, state: usize, rule: usize) -> (r: Option<usize>)
        requires
            self.wf(),
            state < self@.states.len(),
            rule < self@.rules.len(),
        ensures
            r == goto_for(self@, state as int, rule as int),
    {
        lookup(&self.states[state].goto, self.lhs[rule])
    }
}

} // verus!
