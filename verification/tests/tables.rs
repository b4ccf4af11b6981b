use rustcc::common::error::{Conflict, GrammarError};
use rustcc::common::grammar_rules::{GrammarRules, GrammarSymbol, Rule};
use rustcc::common::lalr_table::{RawAction, RawConflict, RawItem, RawState};
use rustcc::common::numbering::{number_grammar, number_symbols};
use rustcc::common::parse_table::{lookup, AlwaysReduce, ConflictPolicy, ParseTable};
use rustcc::common::reachability::{mark_reachable, unreachable_symbol};
use rustcc::common::symbol_table::{NonTerminal, Terminal};
use rustcc::generator::grammar_rules::{grammar_rules, priority_of, reduce_on, NotationPolicy};
use rustcc::generator::token_rules::token_rules;

fn t(name: &str) -> GrammarSymbol {
    GrammarSymbol::terminal(name)
}

fn n(name: &str) -> GrammarSymbol {
    GrammarSymbol::non_terminal(name)
}

fn grammar(start: &str, rules: Vec<Rule>) -> GrammarRules {
    GrammarRules { start_symbol: NonTerminal::named(start), rules }
}

fn dangling_else() -> GrammarRules {
    grammar(
        "S",
        vec![
            Rule::new("S", vec![t("IF"), t("e"), t("THEN"), n("S")]),
            Rule::new("S", vec![t("IF"), t("e"), t("THEN"), n("S"), t("ELSE"), n("S")]),
            Rule::new("S", vec![t("X")]),
        ],
    )
}

struct ShiftElse;

impl ConflictPolicy for ShiftElse {
    fn reduce_on(&self, _rhs: &[GrammarSymbol], lookahead: Option<&Terminal>) -> bool {
        lookahead != Some(&Terminal::named("ELSE"))
    }

    fn priority_of(&self, _rhs: &[GrammarSymbol], _lookahead: Option<&Terminal>) -> i32 {
        0
    }
}

struct PreferFirst;

impl ConflictPolicy for PreferFirst {
    fn reduce_on(&self, _rhs: &[GrammarSymbol], _lookahead: Option<&Terminal>) -> bool {
        true
    }

    fn priority_of(&self, rhs: &[GrammarSymbol], _lookahead: Option<&Terminal>) -> i32 {
        if rhs == [t("x")] {
            1
        } else {
            0
        }
    }
}

struct PreferEmpty;

impl ConflictPolicy for PreferEmpty {
    fn reduce_on(&self, _rhs: &[GrammarSymbol], _lookahead: Option<&Terminal>) -> bool {
        true
    }

    fn priority_of(&self, rhs: &[GrammarSymbol], _lookahead: Option<&Terminal>) -> i32 {
        if rhs.is_empty() {
            i32::MAX
        } else {
            i32::MIN
        }
    }
}

#[test]
fn notation_grammar_has_a_table() {
    let grammar = grammar_rules();
    assert_eq!(grammar.start_symbol, NonTerminal::named("Grammar"));
    assert_eq!(grammar.rules.len(), 33);
    assert_eq!(grammar.rules[0], Rule::new("Grammar", vec![n("Grammar"), n("Directive")]));
    assert_eq!(grammar.rules[2], Rule::new("Grammar", Vec::new()));
    assert_eq!(
        grammar.rules[9],
        Rule::new("Rule", vec![t("LeftIdentifier"), t("Equal"), n("Expression")])
    );
    assert_eq!(grammar.rules[32], Rule::new("LookaheadGroup", vec![t("NegativeLookBehind")]));
    assert_eq!(grammar.clone(), grammar);
    let table = ParseTable::new(&grammar, &NotationPolicy).expect("the notation is LALR(1)");
    assert!(table.state_count() > 1);
    assert_eq!(table.rule_count(), 33);
    assert_eq!(table.rule(2), &Rule::new("Grammar", Vec::new()));
}

#[test]
fn notation_token_rules_are_in_order() {
    let rules = token_rules();
    assert_eq!(rules.len(), 21);
    assert_eq!((rules[0].kind.0.as_str(), rules[0].regex.as_str(), rules[0].skip), ("At", "@", false));
    assert_eq!((rules[2].kind.0.as_str(), rules[2].regex.as_str()), ("Pipe", r"\|"));
    assert_eq!((rules[15].kind.0.as_str(), rules[15].regex.as_str()), ("Empty", "EPSILON"));
    assert_eq!((rules[16].kind.0.as_str(), rules[16].regex.as_str()), ("Literal", r#""([^"\\]|\\.)*""#));
    assert_eq!((rules[17].kind.0.as_str(), rules[17].regex.as_str()), ("Regex", r"/(?:[^/\\]|\\.)*/"));
    assert_eq!(
        (rules[18].kind.0.as_str(), rules[18].regex.as_str()),
        ("Identifier", "[A-Za-z_][A-Za-z_0-9]*")
    );
    assert_eq!((rules[19].kind.0.as_str(), rules[19].regex.as_str(), rules[19].skip), ("Comment", "#.*", true));
    assert_eq!(
        (rules[20].kind.0.as_str(), rules[20].regex.as_str(), rules[20].skip),
        ("Whitespace", r"\s+", true)
    );
    assert_eq!(rules[3].clone().regex, r"\{");
}

#[test]
fn white_space_goes_to_the_factor_before_it() {
    let factor = [n("FactorRepetition"), n("Atom"), n("FactorRepetition")];
    let tilde = Terminal::named("Tilde");
    assert!(!reduce_on(&factor, Some(&tilde)));
    assert!(reduce_on(&factor, Some(&Terminal::named("Identifier"))));
    assert!(reduce_on(&factor, None));
    assert!(reduce_on(&[n("FactorRepetition"), n("Atom")], Some(&tilde)));
    assert!(reduce_on(&[n("FactorRepetition"), t("Atom"), n("FactorRepetition")], Some(&tilde)));
    assert!(reduce_on(&[], Some(&tilde)));
    let written = [n("factor_repetition"), n("atom"), n("factor_repetition")];
    assert!(!reduce_on(&written, Some(&Terminal::named("WHITESPACE"))));
    assert!(reduce_on(&written, Some(&tilde)));
    assert!(reduce_on(&factor, Some(&Terminal::named("WHITESPACE"))));
    assert_eq!(priority_of(&factor, Some(&tilde)), 0);
    assert_eq!(priority_of(&[], None), 0);
    assert!(!NotationPolicy.reduce_on(&factor, Some(&tilde)));
    assert_eq!(NotationPolicy.priority_of(&factor, None), 0);
}

#[test]
fn notation_grammar_conflicts_without_its_policy() {
    let result = ParseTable::new(&grammar_rules(), &AlwaysReduce);
    match result {
        Err(GrammarError::Conflict(conflict)) => {
            assert_eq!(conflict.token, Some("Tilde".to_string()));
            assert_eq!(conflict.other, None);
        },
        other => panic!("expected a conflict, got {:?}", other.map(|_| ())),
    }
}

#[test]
fn shift_reduce_conflict_is_reported() {
    let result = ParseTable::new(&dangling_else(), &AlwaysReduce);
    let conflict = match result {
        Err(GrammarError::Conflict(conflict)) => conflict,
        other => panic!("expected a conflict, got {:?}", other.map(|_| ())),
    };
    assert_eq!(
        conflict,
        Conflict {
            items: vec![RawItem { rule: 0, position: 4 }, RawItem { rule: 1, position: 4 }],
            token: Some("ELSE".to_string()),
            reduce: 0,
            other: None,
        }
    );
}

#[test]
fn a_policy_settles_the_conflict() {
    let table = ParseTable::new(&dangling_else(), &ShiftElse).expect("the policy shifts");
    assert_eq!(table.rule_count(), 3);
    assert!(table.state_count() > 3);
}

fn after_x(table: &ParseTable) -> usize {
    match table.action(0, &Terminal::named("x")) {
        Some(RawAction::Shift(state)) => state,
        other => panic!("expected a shift, got {:?}", other),
    }
}

#[test]
fn of_two_reductions_of_one_priority_the_earlier_is_taken() {
    let ambiguous = grammar(
        "S",
        vec![
            Rule::new("S", vec![n("A")]),
            Rule::new("S", vec![n("B")]),
            Rule::new("A", vec![t("x")]),
            Rule::new("B", vec![t("x")]),
        ],
    );
    let table = ParseTable::new(&ambiguous, &AlwaysReduce).expect("the earlier production wins");
    assert_eq!(table.action(after_x(&table), &Terminal::eof()), Some(RawAction::Reduce(2)));
    assert_eq!(table.rule(2), &Rule::new("A", vec![t("x")]));
    let turned = grammar(
        "S",
        vec![
            Rule::new("S", vec![n("A")]),
            Rule::new("S", vec![n("B")]),
            Rule::new("B", vec![t("x")]),
            Rule::new("A", vec![t("x")]),
        ],
    );
    let table = ParseTable::new(&turned, &AlwaysReduce).expect("the earlier production wins");
    assert_eq!(table.action(after_x(&table), &Terminal::eof()), Some(RawAction::Reduce(2)));
    assert_eq!(table.rule(2), &Rule::new("B", vec![t("x")]));
}

#[test]
fn priorities_settle_a_conflict_between_reductions() {
    let ambiguous = grammar(
        "S",
        vec![
            Rule::new("S", vec![n("A")]),
            Rule::new("S", vec![n("B")]),
            Rule::new("A", vec![t("x")]),
            Rule::new("B", vec![t("x"), n("E")]),
            Rule::new("E", Vec::new()),
        ],
    );
    let table = ParseTable::new(&ambiguous, &AlwaysReduce).expect("the earlier production wins");
    assert_eq!(table.action(after_x(&table), &Terminal::eof()), Some(RawAction::Reduce(2)));
    let table = ParseTable::new(&ambiguous, &PreferFirst).expect("the priorities settle it");
    assert_eq!(table.action(after_x(&table), &Terminal::eof()), Some(RawAction::Reduce(2)));
    let table = ParseTable::new(&ambiguous, &PreferEmpty).expect("the priorities settle it");
    assert_eq!(table.action(after_x(&table), &Terminal::eof()), Some(RawAction::Reduce(4)));
}

#[test]
fn a_symbol_without_production_is_reported() {
    let missing = grammar("S", vec![Rule::new("S", vec![n("A"), n("B")]), Rule::new("A", vec![])]);
    assert_eq!(
        ParseTable::new(&missing, &AlwaysReduce).err(),
        Some(GrammarError::MissingSymbol("B".to_string()))
    );
    let no_start = grammar("S", vec![Rule::new("A", vec![t("a")])]);
    assert_eq!(
        ParseTable::new(&no_start, &AlwaysReduce).err(),
        Some(GrammarError::MissingSymbol("S".to_string()))
    );
    let empty = grammar("S", Vec::new());
    assert_eq!(
        ParseTable::new(&empty, &AlwaysReduce).err(),
        Some(GrammarError::MissingSymbol("S".to_string()))
    );
}

#[test]
fn a_symbol_out_of_reach_is_reported() {
    let unreachable = grammar(
        "S",
        vec![
            Rule::new("S", vec![n("A")]),
            Rule::new("A", vec![t("a")]),
            Rule::new("B", vec![n("C")]),
            Rule::new("C", vec![n("B"), n("A")]),
        ],
    );
    assert_eq!(
        ParseTable::new(&unreachable, &AlwaysReduce).err(),
        Some(GrammarError::UnreachableSymbol("B".to_string()))
    );
}

#[test]
fn symbols_are_numbered_by_their_first_mention() {
    let rules = grammar(
        "S",
        vec![
            Rule::new("A", vec![t("x"), n("B"), t("y"), t("x")]),
            Rule::new("S", vec![n("A"), t("z")]),
            Rule::new("B", vec![]),
        ],
    );
    let numbering = number_symbols(&rules);
    assert_eq!(numbering.terminals, vec!["x", "y", "z"]);
    assert_eq!(numbering.non_terminals, vec!["S", "A", "B"]);
    let numbered = number_grammar(&rules);
    assert_eq!(numbered.terminals, vec!["x", "y", "z"]);
    assert_eq!(numbered.non_terminals, vec!["S", "A", "B"]);
    assert_eq!(numbered.lhs, vec![1, 0, 2]);
    let shown: Vec<Vec<(bool, usize)>> =
        numbered.rhs.iter().map(|r| r.iter().map(|s| (s.terminal, s.index)).collect()).collect();
    assert_eq!(
        shown,
        vec![
            vec![(true, 0), (false, 2), (true, 1), (true, 0)],
            vec![(false, 1), (true, 2)],
            vec![],
        ]
    );
    assert_eq!(mark_reachable(&numbered.lhs, &numbered.rhs, 3), vec![true, true, true]);
    assert_eq!(unreachable_symbol(&numbered.lhs, &numbered.rhs, 3), None);
    assert_eq!(mark_reachable(&vec![1], &vec![vec![]], 2), vec![true, false]);
    assert_eq!(unreachable_symbol(&vec![1], &vec![vec![]], 2), Some(1));
}

#[test]
fn the_first_pair_of_a_key_is_looked_up() {
    let pairs = vec![(3, RawAction::Shift(1)), (5, RawAction::Reduce(2)), (3, RawAction::Accept)];
    assert_eq!(lookup(&pairs, 3), Some(RawAction::Shift(1)));
    assert_eq!(lookup(&pairs, 5), Some(RawAction::Reduce(2)));
    assert_eq!(lookup(&pairs, 4), None);
    assert_eq!(lookup(&Vec::<(usize, usize)>::new(), 0), None);
}

#[test]
fn a_small_table_tells_its_actions() {
    let sums = grammar(
        "S",
        vec![Rule::new("S", vec![n("S"), t("+"), t("n")]), Rule::new("S", vec![t("n")])],
    );
    let table = ParseTable::new(&sums, &AlwaysReduce).expect("sums are LALR(1)");
    let first = table.action(0, &Terminal::named("n"));
    let after_n = match first {
        Some(RawAction::Shift(state)) => state,
        other => panic!("expected a shift, got {:?}", other),
    };
    assert_eq!(table.action(0, &Terminal::named("+")), None);
    assert_eq!(table.action(0, &Terminal::eof()), None);
    assert_eq!(table.action(0, &Terminal::named("unknown")), None);
    assert_eq!(table.action(after_n, &Terminal::named("+")), Some(RawAction::Reduce(1)));
    assert_eq!(table.action(after_n, &Terminal::eof()), Some(RawAction::Reduce(1)));
    let after_s = table.goto(0, 1).expect("the first state goes on after a sum");
    assert_eq!(table.goto(0, 0), Some(after_s));
    assert_eq!(table.action(after_s, &Terminal::eof()), Some(RawAction::Accept));
    assert!(matches!(table.action(after_s, &Terminal::named("+")), Some(RawAction::Shift(_))));
    assert_eq!(table.goto(after_n, 0), None);
}

fn state(eof: Option<RawAction>, lookahead: Vec<(usize, RawAction)>, goto: Vec<(usize, usize)>) -> RawState {
    RawState { eof, lookahead, goto }
}

fn one_token() -> GrammarRules {
    grammar("S", vec![Rule::new("S", vec![t("n")])])
}

fn one_token_states() -> Vec<RawState> {
    vec![
        state(None, vec![(0, RawAction::Shift(1))], vec![(0, 2)]),
        state(None, vec![(1, RawAction::Reduce(0))], Vec::new()),
        state(None, vec![(1, RawAction::Shift(3))], Vec::new()),
        state(Some(RawAction::Accept), Vec::new(), Vec::new()),
    ]
}

#[test]
fn a_conflict_is_told_in_words() {
    let grammar = dangling_else();
    let conflict = match ParseTable::new(&grammar, &AlwaysReduce) {
        Err(GrammarError::Conflict(conflict)) => conflict,
        other => panic!("expected a conflict, got {:?}", other.map(|_| ())),
    };
    assert_eq!(
        conflict.describe(&grammar),
        "Shift/reduce conflict at ELSE: reduce by S -> IF e THEN S . in the state\n  \
         S -> IF e THEN S .\n  S -> IF e THEN S . ELSE S\n"
    );
    let other = Conflict {
        items: vec![RawItem { rule: 2, position: 0 }, RawItem { rule: 3, position: 1 }],
        token: None,
        reduce: 2,
        other: Some(0),
    };
    assert_eq!(
        other.describe(&grammar),
        "Reduce/reduce conflict at the end of the input: reduce by S -> X . or by \
         S -> IF e THEN S . in the state\n  S -> . X\n  (start)\n"
    );
}

#[test]
fn states_that_fit_together_make_a_table() {
    let table = ParseTable::from_outcome(&one_token(), Ok(one_token_states())).expect("a table");
    assert_eq!(table.state_count(), 4);
    assert_eq!(table.action(0, &Terminal::named("n")), Some(RawAction::Shift(1)));
    assert_eq!(table.action(1, &Terminal::eof()), Some(RawAction::Reduce(0)));
    assert_eq!(table.action(2, &Terminal::eof()), Some(RawAction::Accept));
    assert_eq!(table.action(3, &Terminal::eof()), None);
    assert_eq!(table.goto(0, 0), Some(2));
}

#[test]
fn states_that_do_not_fit_together_make_no_table() {
    let refused = |states: Vec<RawState>| {
        ParseTable::from_outcome(&one_token(), Ok(states)).err() == Some(GrammarError::InvalidTable)
    };
    assert!(refused(Vec::new()));
    let mut states = one_token_states();
    states[0].lookahead[0].1 = RawAction::Shift(4);
    assert!(refused(states));
    let mut states = one_token_states();
    states[1].lookahead[0].1 = RawAction::Reduce(1);
    assert!(refused(states));
    let mut states = one_token_states();
    states[1].lookahead[0].1 = RawAction::Accept;
    assert!(refused(states));
    let mut states = one_token_states();
    states[1].lookahead = vec![(1, RawAction::Reduce(0)), (0, RawAction::Reduce(0))];
    assert!(refused(states));
    let mut states = one_token_states();
    states[1].lookahead = vec![(1, RawAction::Reduce(0)), (1, RawAction::Reduce(0))];
    assert!(refused(states));
    let mut states = one_token_states();
    states[0].goto[0].1 = 0;
    assert!(refused(states));
    let mut states = one_token_states();
    states[0].lookahead[0].1 = RawAction::Shift(2);
    assert!(refused(states));
    let mut states = one_token_states();
    states[1].goto = vec![(0, 2)];
    assert!(refused(states));
    let mut states = one_token_states();
    states[0].lookahead = vec![(0, RawAction::Shift(1)), (1, RawAction::Shift(3))];
    assert!(refused(states));
}

#[test]
fn a_conflict_of_the_construction_gets_the_name_of_its_terminal() {
    let conflict = |token| RawConflict {
        items: vec![RawItem { rule: 0, position: 1 }],
        token,
        first: 0,
        second: None,
    };
    let named = |token| match ParseTable::from_outcome(&one_token(), Err(conflict(token))) {
        Err(GrammarError::Conflict(conflict)) => conflict.token,
        other => panic!("expected a conflict, got {:?}", other.map(|_| ())),
    };
    assert_eq!(named(Some(0)), Some("n".to_string()));
    assert_eq!(named(Some(1)), None);
    assert_eq!(named(None), None);
}

#[test]
fn no_state_holds_two_actions_for_one_terminal() {
    let table = ParseTable::new(&grammar_rules(), &NotationPolicy).expect("LALR(1)");
    assert_eq!(table.terminals().len(), 20);
    assert_eq!(table.non_terminals()[0], "Grammar");
    assert_eq!(table.states().len(), table.state_count());
    for state in table.states() {
        for pair in state.lookahead.windows(2) {
            assert!(pair[0].0 < pair[1].0);
        }
        for (terminal, action) in &state.lookahead {
            assert!(*terminal <= table.terminals().len());
            assert_ne!(*action, RawAction::Accept);
        }
    }
    let accepting: Vec<&RawState> =
        table.states().iter().filter(|state| state.eof == Some(RawAction::Accept)).collect();
    assert_eq!(accepting.len(), 1);
}
