//! Numbering the symbols of a grammar: each terminal and each non-terminal
//! gets the number of its first mention.

use crate::common::grammar_rules::{
    GrammarRules,
    GrammarRulesView,
    GrammarSymbol,
    GrammarSymbolView,
    RuleView,
};
use crate::common::lalr_table::RawSymbol;
use crate::common::name_map::position_of;
use crate::common::parse_tree::views;
use vstd::prelude::*;

verus! {

/// The place of the first `name` in `names`, or the length of `names`
/// where there is none.
pub open spec fn place(names: Seq<Seq<char>>, name: Seq<char>) -> int
    decreases names.len(),
{
    if names.len() == 0 {
        0
    } else if names[0] == name {
        0
    } else {
        1 + place(names.drop_first(), name)
    }
}

/// `names` with `name` at its end, unless it holds `name` already.
pub open spec fn interned(names: Seq<Seq<char>>, name: Seq<char>) -> Seq<Seq<char>> {
    if names.contains(name) {
        names
    } else {
        names.push(name)
    }
}

/// The names of `names` in the order in which each first occurs.
pub open spec fn distinct(names: Seq<Seq<char>>) -> Seq<Seq<char>>
    decreases names.len(),
{
    if names.len() == 0 {
        Seq::empty()
    } else {
        interned(distinct(names.drop_last()), names.last())
    }
}

/// The terminals among `symbols`, in order.
pub open spec fn terminals_among(symbols: Seq<GrammarSymbolView>) -> Seq<Seq<char>>
    decreases symbols.len(),
{
    if symbols.len() == 0 {
        Seq::empty()
    } else {
        match symbols.last() {
            GrammarSymbolView::Terminal(name) => terminals_among(symbols.drop_last()).push(name),
            GrammarSymbolView::Nonterminal(_) => terminals_among(symbols.drop_last()),
        }
    }
}

/// The non-terminals among `symbols`, in order.
pub open spec fn non_terminals_among(symbols: Seq<GrammarSymbolView>) -> Seq<Seq<char>>
    decreases symbols.len(),
{
    if symbols.len() == 0 {
        Seq::empty()
    } else {
        match symbols.last() {
            GrammarSymbolView::Terminal(_) => non_terminals_among(symbols.drop_last()),
            GrammarSymbolView::Nonterminal(name) => non_terminals_among(symbols.drop_last()).push(
                name,
            ),
        }
    }
}

/// The terminals that the productions mention, in order.
pub open spec fn mentioned_terminals(rules: Seq<RuleView>) -> Seq<Seq<char>>
    decreases rules.len(),
{
    if rules.len() == 0 {
        Seq::empty()
    } else {
        mentioned_terminals(rules.drop_last()) + terminals_among(rules.last().rhs)
    }
}

/// The non-terminals that the productions mention, in order: for each
/// production the left-hand side, then those of the right-hand side.
pub open spec fn mentioned_non_terminals(rules: Seq<RuleView>) -> Seq<Seq<char>>
    decreases rules.len(),
{
    if rules.len() == 0 {
        Seq::empty()
    } else {
        mentioned_non_terminals(rules.drop_last()).push(rules.last().non_terminal)
            + non_terminals_among(rules.last().rhs)
    }
}

/// The terminals of a grammar, each at its number.
pub open spec fn terminals_of(grammar: GrammarRulesView) -> Seq<Seq<char>> {
    distinct(mentioned_terminals(grammar.rules))
}

/// The non-terminals of a grammar, each at its number. The start symbol has
/// the number 0.
pub open spec fn non_terminals_of(grammar: GrammarRulesView) -> Seq<Seq<char>> {
    distinct(seq![grammar.start_symbol] + mentioned_non_terminals(grammar.rules))
}

/// The numbered form of a symbol.
pub open spec fn numbered_symbol(
    symbol: GrammarSymbolView,
    terminals: Seq<Seq<char>>,
    non_terminals: Seq<Seq<char>>,
) -> RawSymbol {
    match symbol {
        GrammarSymbolView::Terminal(name) => RawSymbol {
            terminal: true,
            index: place(terminals, name) as usize,
        },
        GrammarSymbolView::Nonterminal(name) => RawSymbol {
            terminal: false,
            index: place(non_terminals, name) as usize,
        },
    }
}

/// The numbered form of a right-hand side.
pub open spec fn numbered_rhs(
    rhs: Seq<GrammarSymbolView>,
    terminals: Seq<Seq<char>>,
    non_terminals: Seq<Seq<char>>,
) -> Seq<RawSymbol> {
    Seq::new(rhs.len(), |j: int| numbered_symbol(rhs[j], terminals, non_terminals))
}

/// What `place` finds.
pub proof fn lemma_place(names: Seq<Seq<char>>, name: Seq<char>)
    ensures
        0 <= place(names, name) <= names.len(),
        place(names, name) < names.len() ==> names[place(names, name)] == name,
        forall|k: int| 0 <= k < place(names, name) ==> names[k] != name,
        names.contains(name) <==> place(names, name) < names.len(),
    decreases names.len(),
{
    if names.len() > 0 {
        let rest = names.drop_first();
        lemma_place(rest, name);
        if names[0] != name {
            assert forall|k: int| 0 <= k < place(names, name) implies names[k] != name by {
                if k > 0 {
                    assert(rest[k - 1] == names[k]);
                }
            }
            if names.contains(name) {
                let i = choose|i: int| 0 <= i < names.len() && names[i] == name;
                assert(rest[i - 1] == name);
            }
            if place(rest, name) < rest.len() {
                assert(names[place(rest, name) + 1] == name);
            }
        } else {
            assert(names[0] == name);
        }
    }
}

/// A name that is interned is found, and the names that were there keep
/// their places.
pub proof fn lemma_interned(names: Seq<Seq<char>>, name: Seq<char>, other: Seq<char>)
    ensures
        interned(names, name).contains(name),
        names.contains(other) ==> interned(names, name).contains(other) && place(
            interned(names, name),
            other,
        ) == place(names, other),
{
    lemma_place(names, other);
    lemma_place(interned(names, name), other);
    let more = interned(names, name);
    if !names.contains(name) {
        assert(more[names.len() as int] == name);
    }
    if names.contains(other) {
        let at = place(names, other);
        assert(more[at] == other);
        let found = place(more, other);
        if found < at {
            assert(names[found] == more[found]);
        } else if at < found {
        }
    }
}

/// No name occurs twice among distinct names, and each of the names is
/// among them.
pub proof fn lemma_distinct(names: Seq<Seq<char>>)
    ensures
        forall|i: int, j: int|
            0 <= i < j < distinct(names).len() ==> distinct(names)[i] != distinct(names)[j],
        forall|k: int| 0 <= k < names.len() ==> distinct(names).contains(#[trigger] names[k]),
        forall|name: Seq<char>| #[trigger] distinct(names).contains(name) ==> names.contains(name),
    decreases names.len(),
{
    if names.len() > 0 {
        let init = names.drop_last();
        let last = names.last();
        lemma_distinct(init);
        let before = distinct(init);
        let now = distinct(names);
        assert forall|k: int| 0 <= k < names.len() implies now.contains(#[trigger] names[k]) by {
            lemma_interned(before, last, names[k]);
            if k < names.len() - 1 {
                assert(init[k] == names[k]);
            }
        }
        assert forall|name: Seq<char>| now.contains(name) implies names.contains(name) by {
            let i = choose|i: int| 0 <= i < now.len() && now[i] == name;
            if i < before.len() {
                assert(before[i] == name);
                assert(before.contains(name));
                let k = choose|k: int| 0 <= k < init.len() && init[k] == name;
                assert(names[k] == name);
            } else {
                assert(names[names.len() - 1] == name);
            }
        }
        assert forall|i: int, j: int| 0 <= i < j < now.len() implies now[i] != now[j] by {
            if j == before.len() {
                assert(!before.contains(last));
                if now[i] == now[j] {
                    assert(before[i] == last);
                }
            }
        }
    }
}

/// Adds `name` to `names` unless it is there.
pub fn intern(names: &mut Vec<String>, name: &String)
    ensures
        views(final(names)@) == interned(views(old(names)@), name@),
{
    let ghost before = views(names@);
    match position_of(names, name.as_str()) {
        Some(at) => {
            assert(before[at as int] == name@);
        },
        None => {
            assert(!before.contains(name@)) by {
                if before.contains(name@) {
                    let k = choose|k: int| 0 <= k < before.len() && before[k] == name@;
                    assert(names@[k]@ == name@);
                }
            }
            names.push(name.clone());
            assert(views(names@) =~= before.push(name@));
        },
    }
}

/// The place of the first `name` in `names`.
pub fn find(names: &Vec<String>, name: &String) -> (r: Option<usize>)
    ensures
        match r {
            Some(at) => at == place(views(names@), name@) && at < names.len(),
            None => place(views(names@), name@) == names.len(),
        },
{
    let r = position_of(names, name.as_str());
    proof {
        let shown = views(names@);
        lemma_place(shown, name@);
        match r {
            Some(at) => {
                assert(shown[at as int] == name@);
                let found = place(shown, name@);
                if found < at {
                    assert(names@[found]@ == name@);
                }
            },
            None => {
                if place(shown, name@) < shown.len() {
                    assert(names@[place(shown, name@)]@ == name@);
                }
            },
        }
    }
    r
}

/// The names of a grammar's symbols, each at its number.
pub struct Numbering {
    pub terminals: Vec<String>,
    pub non_terminals: Vec<String>,
}

/// Numbers the symbols of a grammar.
pub fn number_symbols(grammar: &GrammarRules) -> (r: Numbering)
    ensures
        views(r.terminals@) == terminals_of(grammar@),
        views(r.non_terminals@) == non_terminals_of(grammar@),
{
    let ghost shown = views(grammar.rules@);
    let ghost start = grammar.start_symbol@;
    let mut terminals: Vec<String> = Vec::new();
    let mut non_terminals: Vec<String> = Vec::new();
    intern(&mut non_terminals, &grammar.start_symbol.0);
    let mut i: usize = 0;
    proof {
        assert(views(terminals@) =~= distinct(mentioned_terminals(shown.take(0))));
        let first = seq![start] + mentioned_non_terminals(shown.take(0));
        assert(first =~= seq![start]);
        assert(first.drop_last() =~= Seq::<Seq<char>>::empty());
        assert(distinct(first.drop_last()) =~= Seq::<Seq<char>>::empty());
    }
    while i < grammar.rules.len()
        invariant
            i <= grammar.rules.len(),
            shown == views(grammar.rules@),
            start == grammar.start_symbol@,
            views(terminals@) == distinct(mentioned_terminals(shown.take(i as int))),
            views(non_terminals@) == distinct(
                seq![start] + mentioned_non_terminals(shown.take(i as int)),
            ),
        decreases grammar.rules.len() - i,
    {
        let rule = &grammar.rules[i];
        let ghost done = shown.take(i as int);
        let ghost rhs = views(rule.rhs@);
        proof {
            assert(shown.take(i + 1).drop_last() =~= done);
            assert(shown.take(i + 1).last() == rule@);
            let with_lhs = (seq![start] + mentioned_non_terminals(done)).push(rule.non_terminal@);
            assert(with_lhs.drop_last() =~= seq![start] + mentioned_non_terminals(done));
        }
        intern(&mut non_terminals, &rule.non_terminal.0);
        let mut j: usize = 0;
        proof {
            assert(mentioned_terminals(done) + terminals_among(rhs.take(0)) =~= mentioned_terminals(
                done,
            ));
            assert((seq![start] + mentioned_non_terminals(done)).push(rule.non_terminal@)
                + non_terminals_among(rhs.take(0)) =~= (seq![start] + mentioned_non_terminals(
                done,
            )).push(rule.non_terminal@));
        }
        while j < rule.rhs.len()
            invariant
                j <= rule.rhs.len(),
                rhs == views(rule.rhs@),
                views(terminals@) == distinct(
                    mentioned_terminals(done) + terminals_among(rhs.take(j as int)),
                ),
                views(non_terminals@) == distinct(
                    (seq![start] + mentioned_non_terminals(done)).push(rule.non_terminal@)
                        + non_terminals_among(rhs.take(j as int)),
                ),
            decreases rule.rhs.len() - j,
        {
            proof {
                assert(rhs.take(j + 1).drop_last() =~= rhs.take(j as int));
                assert(rhs.take(j + 1).last() == rule.rhs@[j as int]@);
            }
            match &rule.rhs[j] {
                GrammarSymbol::Terminal(t) => {
                    proof {
                        let all = mentioned_terminals(done) + terminals_among(rhs.take(j + 1));
                        assert(all.drop_last() =~= mentioned_terminals(done) + terminals_among(
                            rhs.take(j as int),
                        ));
                    }
                    intern(&mut terminals, &t.0);
                },
                GrammarSymbol::Nonterminal(n) => {
                    proof {
                        let head = (seq![start] + mentioned_non_terminals(done)).push(
                            rule.non_terminal@,
                        );
                        let all = head + non_terminals_among(rhs.take(j + 1));
                        assert(all.drop_last() =~= head + non_terminals_among(rhs.take(j as int)));
                    }
                    intern(&mut non_terminals, &n.0);
                },
            }
            j += 1;
        }
        proof {
            assert(rhs.take(j as int) =~= rhs);
            assert((seq![start] + mentioned_non_terminals(done)).push(rule.non_terminal@)
                + non_terminals_among(rhs) =~= seq![start] + mentioned_non_terminals(
                shown.take(i + 1),
            ));
        }
        i += 1;
    }
    assert(shown.take(i as int) =~= shown);
    Numbering { terminals, non_terminals }
}

/// The numbered form of a right-hand side, or `None` where a symbol of it
/// has no number.
pub fn number_rhs(rhs: &Vec<GrammarSymbol>, numbering: &Numbering) -> (r: Option<Vec<RawSymbol>>)
    ensures
        match r {
            Some(symbols) => symbols@ == numbered_rhs(
                views(rhs@),
                views(numbering.terminals@),
                views(numbering.non_terminals@),
            ) && forall|j: int|
                0 <= j < symbols.len() ==> if (#[trigger] symbols@[j]).terminal {
                    symbols@[j].index < numbering.terminals.len()
                } else {
                    symbols@[j].index < numbering.non_terminals.len()
                },
            None => exists|j: int|
                0 <= j < rhs.len() && match #[trigger] rhs@[j]@ {
                    GrammarSymbolView::Terminal(name) => !views(numbering.terminals@).contains(name),
                    GrammarSymbolView::Nonterminal(name) => !views(
                        numbering.non_terminals@,
                    ).contains(name),
                },
        },
{
    let ghost terminals = views(numbering.terminals@);
    let ghost non_terminals = views(numbering.non_terminals@);
    let ghost shown = views(rhs@);
    let mut symbols: Vec<RawSymbol> = Vec::new();
    let mut j: usize = 0;
    while j < rhs.len()
        invariant
            j <= rhs.len(),
            terminals == views(numbering.terminals@),
            non_terminals == views(numbering.non_terminals@),
            shown == views(rhs@),
            symbols.len() == j,
            forall|k: int|
                0 <= k < j ==> #[trigger] symbols@[k] == numbered_symbol(
                    shown[k],
                    terminals,
                    non_terminals,
                ),
            forall|k: int|
                0 <= k < j ==> if (#[trigger] symbols@[k]).terminal {
                    symbols@[k].index < numbering.terminals.len()
                } else {
                    symbols@[k].index < numbering.non_terminals.len()
                },
        decreases rhs.len() - j,
    {
        let ghost missing = match rhs@[j as int]@ {
            GrammarSymbolView::Terminal(name) => !terminals.contains(name),
            GrammarSymbolView::Nonterminal(name) => !non_terminals.contains(name),
        };
        let found = match &rhs[j] {
            GrammarSymbol::Terminal(t) => {
                proof {
                    lemma_place(terminals, t@);
                }
                match find(&numbering.terminals, &t.0) {
                    Some(at) => Some(RawSymbol { terminal: true, index: at }),
                    None => None,
                }
            },
            GrammarSymbol::Nonterminal(n) => {
                proof {
                    lemma_place(non_terminals, n@);
                }
                match find(&numbering.non_terminals, &n.0) {
                    Some(at) => Some(RawSymbol { terminal: false, index: at }),
                    None => None,
                }
            },
        };
        match found {
            Some(symbol) => {
                symbols.push(symbol);
            },
            None => {
                assert(missing);
                return None;
            },
        }
        j += 1;
    }
    assert(symbols@ =~= numbered_rhs(shown, terminals, non_terminals));
    Some(symbols)
}

/// Each symbol of `symbols` is among the terminals or the non-terminals of
/// `symbols`.
pub proof fn lemma_among(symbols: Seq<GrammarSymbolView>, j: int)
    requires
        0 <= j < symbols.len(),
    ensures
        match symbols[j] {
            GrammarSymbolView::Terminal(name) => terminals_among(symbols).contains(name),
            GrammarSymbolView::Nonterminal(name) => non_terminals_among(symbols).contains(name),
        },
    decreases symbols.len(),
{
    let init = symbols.drop_last();
    if j < symbols.len() - 1 {
        lemma_among(init, j);
        assert(init[j] == symbols[j]);
        match symbols[j] {
            GrammarSymbolView::Terminal(name) => {
                let k = choose|k: int|
                    0 <= k < terminals_among(init).len() && terminals_among(init)[k] == name;
                assert(terminals_among(symbols)[k] == name);
            },
            GrammarSymbolView::Nonterminal(name) => {
                let k = choose|k: int|
                    0 <= k < non_terminals_among(init).len() && non_terminals_among(init)[k]
                        == name;
                assert(non_terminals_among(symbols)[k] == name);
            },
        }
    } else {
        match symbols[j] {
            GrammarSymbolView::Terminal(name) => {
                assert(terminals_among(symbols).last() == name);
            },
            GrammarSymbolView::Nonterminal(name) => {
                assert(non_terminals_among(symbols).last() == name);
            },
        }
    }
}

/// The left-hand side of each production and each symbol of its right-hand
/// side is among the symbols that the productions mention.
pub proof fn lemma_mentioned(rules: Seq<RuleView>, i: int)
    requires
        0 <= i < rules.len(),
    ensures
        mentioned_non_terminals(rules).contains(rules[i].non_terminal),
        forall|j: int|
            0 <= j < rules[i].rhs.len() ==> match #[trigger] rules[i].rhs[j] {
                GrammarSymbolView::Terminal(name) => mentioned_terminals(rules).contains(name),
                GrammarSymbolView::Nonterminal(name) => mentioned_non_terminals(rules).contains(
                    name,
                ),
            },
    decreases rules.len(),
{
    let init = rules.drop_last();
    let last = rules.last();
    let ts = mentioned_terminals(rules);
    let ns = mentioned_non_terminals(rules);
    if i < rules.len() - 1 {
        lemma_mentioned(init, i);
        assert(init[i] == rules[i]);
        let k = choose|k: int|
            0 <= k < mentioned_non_terminals(init).len() && mentioned_non_terminals(init)[k]
                == rules[i].non_terminal;
        assert(ns[k] == rules[i].non_terminal);
        assert forall|j: int| 0 <= j < rules[i].rhs.len() implies match #[trigger] rules[i].rhs[j] {
            GrammarSymbolView::Terminal(name) => ts.contains(name),
            GrammarSymbolView::Nonterminal(name) => ns.contains(name),
        } by {
            match rules[i].rhs[j] {
                GrammarSymbolView::Terminal(name) => {
                    let k = choose|k: int|
                        0 <= k < mentioned_terminals(init).len() && mentioned_terminals(init)[k]
                            == name;
                    assert(ts[k] == name);
                },
                GrammarSymbolView::Nonterminal(name) => {
                    let k = choose|k: int|
                        0 <= k < mentioned_non_terminals(init).len() && mentioned_non_terminals(
                            init,
                        )[k] == name;
                    assert(ns[k] == name);
                },
            }
        }
    } else {
        let before = mentioned_non_terminals(init).len() as int;
        assert(ns[before] == last.non_terminal);
        assert forall|j: int| 0 <= j < last.rhs.len() implies match #[trigger] last.rhs[j] {
            GrammarSymbolView::Terminal(name) => ts.contains(name),
            GrammarSymbolView::Nonterminal(name) => ns.contains(name),
        } by {
            lemma_among(last.rhs, j);
            match last.rhs[j] {
                GrammarSymbolView::Terminal(name) => {
                    let k = choose|k: int|
                        0 <= k < terminals_among(last.rhs).len() && terminals_among(last.rhs)[k]
                            == name;
                    assert(ts[mentioned_terminals(init).len() + k] == name);
                },
                GrammarSymbolView::Nonterminal(name) => {
                    let k = choose|k: int|
                        0 <= k < non_terminals_among(last.rhs).len() && non_terminals_among(
                            last.rhs,
                        )[k] == name;
                    assert(ns[before + 1 + k] == name);
                },
            }
        }
    }
}

/// Each symbol of a grammar has a number.
pub proof fn lemma_numbered(grammar: GrammarRulesView, i: int)
    requires
        0 <= i < grammar.rules.len(),
    ensures
        non_terminals_of(grammar).contains(grammar.start_symbol),
        place(non_terminals_of(grammar), grammar.start_symbol) == 0,
        non_terminals_of(grammar).contains(grammar.rules[i].non_terminal),
        forall|j: int|
            0 <= j < grammar.rules[i].rhs.len() ==> match #[trigger] grammar.rules[i].rhs[j] {
                GrammarSymbolView::Terminal(name) => terminals_of(grammar).contains(name),
                GrammarSymbolView::Nonterminal(name) => non_terminals_of(grammar).contains(name),
            },
{
    lemma_start_first(grammar);
    lemma_mentioned(grammar.rules, i);
    let ns = seq![grammar.start_symbol] + mentioned_non_terminals(grammar.rules);
    lemma_distinct(ns);
    lemma_distinct(mentioned_terminals(grammar.rules));
    let at = choose|k: int|
        0 <= k < mentioned_non_terminals(grammar.rules).len() && mentioned_non_terminals(
            grammar.rules,
        )[k] == grammar.rules[i].non_terminal;
    assert(ns[at + 1] == grammar.rules[i].non_terminal);
    assert forall|j: int| 0 <= j < grammar.rules[i].rhs.len() implies match #[trigger] grammar.rules[i].rhs[j] {
        GrammarSymbolView::Terminal(name) => terminals_of(grammar).contains(name),
        GrammarSymbolView::Nonterminal(name) => non_terminals_of(grammar).contains(name),
    } by {
        match grammar.rules[i].rhs[j] {
            GrammarSymbolView::Terminal(name) => {
                let k = choose|k: int|
                    0 <= k < mentioned_terminals(grammar.rules).len() && mentioned_terminals(
                        grammar.rules,
                    )[k] == name;
                assert(mentioned_terminals(grammar.rules)[k] == name);
            },
            GrammarSymbolView::Nonterminal(name) => {
                let k = choose|k: int|
                    0 <= k < mentioned_non_terminals(grammar.rules).len()
                        && mentioned_non_terminals(grammar.rules)[k] == name;
                assert(ns[k + 1] == name);
            },
        }
    }
}

/// The start symbol has the number 0.
pub proof fn lemma_start_first(grammar: GrammarRulesView)
    ensures
        non_terminals_of(grammar).len() > 0,
        non_terminals_of(grammar)[0] == grammar.start_symbol,
        non_terminals_of(grammar).contains(grammar.start_symbol),
        place(non_terminals_of(grammar), grammar.start_symbol) == 0,
{
    lemma_distinct_head(grammar.start_symbol, mentioned_non_terminals(grammar.rules));
    assert(non_terminals_of(grammar)[0] == grammar.start_symbol);
}

/// The first of the names comes first among the distinct names.
pub proof fn lemma_distinct_head(head: Seq<char>, rest: Seq<Seq<char>>)
    ensures
        distinct(seq![head] + rest).len() > 0,
        distinct(seq![head] + rest)[0] == head,
    decreases rest.len(),
{
    let all = seq![head] + rest;
    if rest.len() == 0 {
        assert(all.drop_last() =~= Seq::<Seq<char>>::empty());
        assert(distinct(all.drop_last()) =~= Seq::<Seq<char>>::empty());
        assert(all.last() == head);
    } else {
        lemma_distinct_head(head, rest.drop_last());
        assert(all.drop_last() =~= seq![head] + rest.drop_last());
    }
}

/// A grammar whose symbols are numbers: for each production the number of
/// its left-hand side and the numbered form of its right-hand side.
pub struct NumberedGrammar {
    pub terminals: Vec<String>,
    pub non_terminals: Vec<String>,
    pub lhs: Vec<usize>,
    pub rhs: Vec<Vec<RawSymbol>>,
}

/// The numbers of the left-hand sides of the productions.
pub open spec fn numbered_lhs(grammar: GrammarRulesView) -> Seq<usize> {
    Seq::new(
        grammar.rules.len(),
        |i: int| place(non_terminals_of(grammar), grammar.rules[i].non_terminal) as usize,
    )
}

/// The numbered forms of the right-hand sides of the productions.
pub open spec fn numbered_rules(grammar: GrammarRulesView) -> Seq<Seq<RawSymbol>> {
    Seq::new(
        grammar.rules.len(),
        |i: int|
            numbered_rhs(grammar.rules[i].rhs, terminals_of(grammar), non_terminals_of(grammar)),
    )
}

/// The right-hand sides of `rhs` as sequences.
pub open spec fn rhs_views(rhs: Seq<Vec<RawSymbol>>) -> Seq<Seq<RawSymbol>> {
    Seq::new(rhs.len(), |i: int| rhs[i]@)
}

/// Numbers the symbols and the productions of a grammar.
pub fn number_grammar(grammar: &GrammarRules) -> (r: NumberedGrammar)
    ensures
        views(r.terminals@) == terminals_of(grammar@),
        views(r.non_terminals@) == non_terminals_of(grammar@),
        r.lhs@ == numbered_lhs(grammar@),
        rhs_views(r.rhs@) == numbered_rules(grammar@),
        r.non_terminals.len() > 0,
        forall|i: int| 0 <= i < r.lhs.len() ==> #[trigger] r.lhs@[i] < r.non_terminals.len(),
        forall|i: int, j: int|
            0 <= i < r.rhs.len() && 0 <= j < r.rhs@[i].len() ==> if (#[trigger] r.rhs@[i]@[j]).terminal {
                r.rhs@[i]@[j].index < r.terminals.len()
            } else {
                r.rhs@[i]@[j].index < r.non_terminals.len()
            },
{
    let numbering = number_symbols(grammar);
    let ghost terminals = terminals_of(grammar@);
    let ghost non_terminals = non_terminals_of(grammar@);
    let mut lhs: Vec<usize> = Vec::new();
    let mut rhs: Vec<Vec<RawSymbol>> = Vec::new();
    let mut i: usize = 0;
    proof {
        lemma_start_first(grammar@);
    }
    while i < grammar.rules.len()
        invariant
            i <= grammar.rules.len(),
            terminals == terminals_of(grammar@),
            non_terminals == non_terminals_of(grammar@),
            views(numbering.terminals@) == terminals,
            views(numbering.non_terminals@) == non_terminals,
            lhs.len() == i,
            rhs.len() == i,
            forall|k: int| 0 <= k < i ==> #[trigger] lhs@[k] == numbered_lhs(grammar@)[k],
            forall|k: int| 0 <= k < i ==> (#[trigger] rhs@[k])@ == numbered_rules(grammar@)[k],
            forall|k: int| 0 <= k < i ==> #[trigger] lhs@[k] < numbering.non_terminals.len(),
            forall|k: int, j: int|
                0 <= k < i && 0 <= j < rhs@[k].len() ==> if (#[trigger] rhs@[k]@[j]).terminal {
                    rhs@[k]@[j].index < numbering.terminals.len()
                } else {
                    rhs@[k]@[j].index < numbering.non_terminals.len()
                },
        decreases grammar.rules.len() - i,
    {
        let rule = &grammar.rules[i];
        proof {
            lemma_numbered(grammar@, i as int);
            lemma_place(non_terminals, rule.non_terminal@);
            assert(grammar@.rules[i as int] == rule@);
        }
        let left = match find(&numbering.non_terminals, &rule.non_terminal.0) {
            Some(at) => at,
            None => {
                assert(false);
                0
            },
        };
        let right = match number_rhs(&rule.rhs, &numbering) {
            Some(symbols) => symbols,
            None => {
                proof {
                    let j = choose|j: int|
                        0 <= j < rule.rhs.len() && match #[trigger] rule.rhs@[j]@ {
                            GrammarSymbolView::Terminal(name) => !terminals.contains(name),
                            GrammarSymbolView::Nonterminal(name) => !non_terminals.contains(name),
                        };
                    assert(rule@.rhs[j] == rule.rhs@[j]@);
                    assert(false);
                }
                Vec::new()
            },
        };
        lhs.push(left);
        rhs.push(right);
        i += 1;
    }
    assert(lhs@ =~= numbered_lhs(grammar@));
    assert(rhs_views(rhs@) =~= numbered_rules(grammar@));
    let Numbering { terminals, non_terminals } = numbering;
    NumberedGrammar { terminals, non_terminals, lhs, rhs }
}

} // verus!
