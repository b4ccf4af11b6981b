use rustcc::common::action::{Action, DefaultAction};
use rustcc::common::grammar_rules::{GrammarRules, GrammarSymbol, Rule};
use rustcc::common::parse_table::{AlwaysReduce, ParseTable};
use rustcc::common::parse_tree::{ParseError, ParseTreeNode, Span};
use rustcc::common::symbol_table::{NonTerminal, Terminal};
use rustcc::compiler::lexer::{LocatedToken, Token};
use rustcc::compiler::parser::Parser;

fn t(name: &str) -> GrammarSymbol {
    GrammarSymbol::terminal(name)
}

fn n(name: &str) -> GrammarSymbol {
    GrammarSymbol::non_terminal(name)
}

fn grammar(start: &str, rules: Vec<Rule>) -> GrammarRules {
    GrammarRules { start_symbol: NonTerminal::named(start), rules }
}

fn stream(kinds: &[(&str, &str)]) -> Vec<LocatedToken> {
    let mut tokens = Vec::new();
    let mut offset = 0;
    for (kind, text) in kinds {
        let end = offset + text.len();
        tokens.push(LocatedToken {
            token: Token::new(kind, text, offset, end),
            span: Span::new(offset, end, 1, offset + 1),
        });
        offset = end;
    }
    tokens.push(LocatedToken {
        token: Token::new("<EOF>", "", offset, offset),
        span: Span::new(offset, offset, 1, offset + 1),
    });
    tokens
}

fn leaf(kind: &str, text: &str, start: usize, end: usize) -> ParseTreeNode {
    ParseTreeNode::terminal(Terminal::named(kind), text.to_string(), Span::new(start, end, 1, 1))
}

fn inner(symbol: &str, children: Vec<ParseTreeNode>) -> ParseTreeNode {
    ParseTreeNode::non_terminal(NonTerminal::named(symbol), children, Span::new(0, 0, 1, 1))
}

fn sums() -> GrammarRules {
    grammar(
        "S",
        vec![
            Rule::new("S", vec![n("S"), t("+"), n("P")]),
            Rule::new("S", vec![n("P")]),
            Rule::new("P", vec![t("n")]),
            Rule::new("P", vec![t("("), n("S"), t(")")]),
        ],
    )
}

struct Recorder {
    calls: Vec<String>,
}

impl Action for Recorder {
    type ParseResult = Vec<String>;
    type ParseError = Vec<String>;

    fn on_reduce(&mut self, non_terminal: &NonTerminal, rhs: &[GrammarSymbol]) {
        self.calls.push(format!("reduce {} {}", non_terminal.0, rhs.len()));
    }

    fn on_shift(&mut self, token: Token) {
        self.calls.push(format!("shift {}", token.text));
    }

    fn on_accept(&mut self) -> Vec<String> {
        self.calls.push("accept".to_string());
        self.calls.clone()
    }

    fn on_error(&mut self, token: Token, span: Span) -> Vec<String> {
        self.calls.push(format!("error {} at {}", token.kind.0, span.start));
        self.calls.clone()
    }
}

#[test]
fn the_default_action_builds_the_tree_of_the_grammar() {
    let table = ParseTable::new(&sums(), &AlwaysReduce).expect("sums are LALR(1)");
    let mut parser = Parser::new(&table, DefaultAction::new(NonTerminal::named("S")));
    let tree = parser.parse(stream(&[("n", "1"), ("+", "+"), ("(", "("), ("n", "2"), (")", ")")]));
    assert_eq!(
        tree,
        Ok(inner(
            "S",
            vec![
                inner("S", vec![inner("P", vec![leaf("n", "1", 0, 1)])]),
                leaf("+", "+", 1, 2),
                inner(
                    "P",
                    vec![
                        leaf("(", "(", 2, 3),
                        inner("S", vec![inner("P", vec![leaf("n", "2", 3, 4)])]),
                        leaf(")", ")", 4, 5),
                    ],
                ),
            ],
        ))
    );
    assert_eq!(parser.stack_depth(), 1);
    assert_eq!(parser.tokens_taken(), 6);
}

#[test]
fn calls_come_in_the_order_of_the_derivation() {
    let table = ParseTable::new(&sums(), &AlwaysReduce).expect("sums are LALR(1)");
    let mut parser = Parser::new(&table, Recorder { calls: Vec::new() });
    let calls = parser.parse(stream(&[("n", "1"), ("+", "+"), ("n", "2")]));
    assert_eq!(
        calls,
        Ok(vec![
            "shift 1".to_string(),
            "reduce P 1".to_string(),
            "reduce S 1".to_string(),
            "shift +".to_string(),
            "shift 2".to_string(),
            "reduce P 1".to_string(),
            "reduce S 3".to_string(),
            "accept".to_string(),
        ])
    );
    assert_eq!(parser.tokens_taken(), 4);
    assert_eq!(parser.into_action().calls.len(), 8);
}

#[test]
fn a_token_without_action_is_an_error() {
    let table = ParseTable::new(&sums(), &AlwaysReduce).expect("sums are LALR(1)");
    let mut parser = Parser::new(&table, Recorder { calls: Vec::new() });
    let calls = parser.parse(stream(&[("n", "1"), ("+", "+"), ("+", "+"), ("n", "2")]));
    assert_eq!(
        calls,
        Err(vec![
            "shift 1".to_string(),
            "reduce P 1".to_string(),
            "reduce S 1".to_string(),
            "shift +".to_string(),
            "error + at 2".to_string(),
        ])
    );
    assert_eq!(parser.tokens_taken(), 3);
    assert_eq!(parser.stack_depth(), 3);
    let again = parser.parse(stream(&[("n", "7")]));
    assert_eq!(again.map(|calls| calls.len()), Ok(9));
    assert_eq!(parser.stack_depth(), 1);
}

#[test]
fn the_default_action_reports_the_token() {
    let table = ParseTable::new(&sums(), &AlwaysReduce).expect("sums are LALR(1)");
    let mut parser = Parser::new(&table, DefaultAction::new(NonTerminal::named("S")));
    let tokens = stream(&[("n", "1"), ("n", "2")]);
    assert_eq!(
        parser.parse(tokens),
        Err(ParseError {
            message: "Syntax Error: Unexpected token 2".to_string(),
            span: Some(Span::new(1, 2, 1, 2)),
        })
    );
    let unknown = stream(&[("what", "?")]);
    assert_eq!(
        parser.parse(unknown),
        Err(ParseError {
            message: "Syntax Error: Unexpected token ?".to_string(),
            span: Some(Span::new(0, 1, 1, 1)),
        })
    );
    assert_eq!(
        parser.parse(stream(&[])),
        Err(ParseError {
            message: "Syntax Error: Unexpected token ".to_string(),
            span: Some(Span::new(0, 0, 1, 1)),
        })
    );
}

#[test]
fn an_empty_production_is_reduced_in_the_first_state() {
    let empty = grammar("S", vec![Rule::new("S", vec![n("A")]), Rule::new("A", Vec::new())]);
    let table = ParseTable::new(&empty, &AlwaysReduce).expect("LALR(1)");
    let mut parser = Parser::new(&table, DefaultAction::new(NonTerminal::named("S")));
    let tree = parser.parse(stream(&[])).expect("the empty input is accepted");
    assert_eq!(tree, inner("S", vec![inner("A", Vec::new())]));
    assert!(tree.get_children()[0].is_empty());
    assert_eq!(parser.tokens_taken(), 1);
    assert_eq!(parser.stack_depth(), 1);
    let mut recorder = Parser::new(&table, Recorder { calls: Vec::new() });
    assert_eq!(
        recorder.parse(stream(&[])),
        Ok(vec!["reduce A 0".to_string(), "reduce S 1".to_string(), "accept".to_string()])
    );
}

#[test]
fn a_start_symbol_that_may_be_empty_accepts_the_empty_input() {
    let list = grammar(
        "L",
        vec![Rule::new("L", vec![n("L"), t("x")]), Rule::new("L", Vec::new())],
    );
    let table = ParseTable::new(&list, &AlwaysReduce).expect("LALR(1)");
    let mut parser = Parser::new(&table, DefaultAction::new(NonTerminal::named("L")));
    assert_eq!(parser.parse(stream(&[])), Ok(inner("L", Vec::new())));
    assert_eq!(
        parser.parse(stream(&[("x", "x"), ("x", "x")])),
        Ok(inner(
            "L",
            vec![inner("L", vec![inner("L", Vec::new()), leaf("x", "x", 0, 1)]), leaf("x", "x", 1, 2)],
        ))
    );
}

#[test]
fn the_default_action_wraps_what_is_no_tree_of_the_start_symbol() {
    let mut action = DefaultAction::new(NonTerminal::named("S"));
    action.on_shift(Token::new("a", "a", 0, 1));
    action.on_shift(Token::new("b", "b", 1, 2));
    action.on_reduce(&NonTerminal::named("T"), &[t("b")]);
    assert_eq!(
        action.on_accept(),
        inner("S", vec![leaf("a", "a", 0, 1), inner("T", vec![leaf("b", "b", 1, 2)])])
    );
    assert_eq!(action.on_accept(), inner("S", Vec::new()));
    action.on_shift(Token::new("a", "a", 0, 1));
    action.on_reduce(&NonTerminal::named("T"), &[t("a"), t("b"), t("c")]);
    assert_eq!(action.on_accept(), inner("S", vec![inner("T", vec![leaf("a", "a", 0, 1)])]));
    action.on_reduce(&NonTerminal::named("S"), &[]);
    assert_eq!(action.on_accept(), inner("S", Vec::new()));
}

#[test]
fn the_default_action_gives_grouping_symbols_no_node() {
    let mut action = DefaultAction::new(NonTerminal::named("S"));
    action.on_shift(Token::new("Identifier", "a", 0, 1));
    for name in [
        "Atom", "Value", "Grammar", "GrammarRepetition", "ListRepetition", "ExpressionRepetition",
        "TermRepetition",
    ] {
        action.on_reduce(&NonTerminal::named(name), &[t("Identifier")]);
    }
    assert_eq!(action.on_accept(), inner("S", vec![leaf("Identifier", "a", 0, 1)]));
}

#[test]
fn the_default_action_keeps_lists_flat() {
    let mut action = DefaultAction::new(NonTerminal::named("List"));
    action.on_shift(Token::new("Identifier", "a", 0, 1));
    action.on_reduce(&NonTerminal::named("List"), &[t("Identifier")]);
    action.on_shift(Token::new("Comma", ",", 1, 2));
    action.on_shift(Token::new("Identifier", "b", 2, 3));
    action.on_reduce(&NonTerminal::named("List"), &[n("List"), t("Comma"), t("Identifier")]);
    assert_eq!(
        action.on_accept(),
        inner(
            "List",
            vec![
                leaf("Identifier", "a", 0, 1),
                leaf("Comma", ",", 1, 2),
                leaf("Identifier", "b", 2, 3),
            ]
        )
    );
}

#[test]
fn the_default_action_leaves_out_white_space_that_is_not_there() {
    let mut action = DefaultAction::new(NonTerminal::named("Factor"));
    action.on_reduce(&NonTerminal::named("FactorRepetition"), &[]);
    action.on_shift(Token::new("Identifier", "a", 0, 1));
    action.on_reduce(&NonTerminal::named("FactorRepetition"), &[]);
    action.on_shift(Token::new("Tilde", "~", 1, 2));
    action.on_reduce(&NonTerminal::named("FactorRepetition"), &[n("FactorRepetition"), t("Tilde")]);
    action.on_reduce(
        &NonTerminal::named("Factor"),
        &[n("FactorRepetition"), n("Atom"), n("FactorRepetition")],
    );
    assert_eq!(
        action.on_accept(),
        inner(
            "Factor",
            vec![
                leaf("Identifier", "a", 0, 1),
                inner("FactorRepetition", vec![leaf("Tilde", "~", 1, 2)]),
            ]
        )
    );
}

#[test]
fn the_default_action_sets_alternatives_side_by_side() {
    let mut action = DefaultAction::new(NonTerminal::named("Expression"));
    action.on_shift(Token::new("Identifier", "a", 4, 5));
    action.on_reduce(&NonTerminal::named("Term"), &[n("Factor")]);
    action.on_reduce(&NonTerminal::named("Expression"), &[n("Term")]);
    action.on_shift(Token::new("Pipe", "|", 6, 7));
    action.on_shift(Token::new("Identifier", "b", 8, 9));
    action.on_reduce(&NonTerminal::named("Term"), &[n("Factor")]);
    action.on_reduce(&NonTerminal::named("Expression"), &[n("Expression"), t("Pipe"), n("Term")]);
    action.on_shift(Token::new("Pipe", "|", 10, 11));
    action.on_shift(Token::new("Identifier", "c", 12, 13));
    action.on_reduce(&NonTerminal::named("Term"), &[n("Factor")]);
    action.on_reduce(&NonTerminal::named("Expression"), &[n("Expression"), t("Pipe"), n("Term")]);
    assert_eq!(
        action.on_accept(),
        inner(
            "Expression",
            vec![
                inner("Term", vec![leaf("Identifier", "a", 4, 5)]),
                leaf("Pipe", "|", 6, 7),
                inner("Term", vec![leaf("Identifier", "b", 8, 9)]),
                leaf("Pipe", "|", 10, 11),
                inner("Term", vec![leaf("Identifier", "c", 12, 13)]),
            ]
        )
    );
}
