use rustcc::common::action::Action;
use rustcc::common::error::{ClassificationError, GeneratorError, GrammarError};
use rustcc::common::grammar_rules::{GrammarSymbol, Rule};
use rustcc::common::parse_table::ParseTable;
use rustcc::common::parse_tree::{ParseError, ParseTreeNode, Span, Symbol};
use rustcc::common::symbol_table::{NonTerminal, Terminal};
use rustcc::compiler::lexer::{Lexer, LocatedToken, Token};
use rustcc::compiler::parser::Parser;
use rustcc::generator::action::ParseTreeAction;
use rustcc::generator::classification::{check_patterns, push_token_rules, scan, Production};
use rustcc::generator::generator_action::{GeneratorAction, GeneratorResult};
use rustcc::generator::grammar_rules::{grammar_rules, NotationPolicy};
use rustcc::generator::processor::Processor;
use rustcc::generator::resolution::{all_rules_for, rules_for, symbol_for, symbols_for};
use rustcc::generator::symbol_table::table_of;
use rustcc::generator::token_rules::token_rules;

fn notation_tokens(input: &str) -> Vec<LocatedToken> {
    let lexer = Lexer::new(&token_rules()).expect("the patterns of the notation compile");
    Processor::process(lexer.tokenize(input).expect("the text holds tokens only"))
}

fn read_grammar(input: &str) -> Result<GeneratorResult, GeneratorError> {
    let table = ParseTable::new(&grammar_rules(), &NotationPolicy).expect("LALR(1)");
    let mut parser = Parser::new(&table, GeneratorAction::new());
    parser.parse(notation_tokens(input)).expect("the text is a grammar")
}

fn read_tree(input: &str) -> Result<ParseTreeNode, ParseError> {
    let table = ParseTable::new(&grammar_rules(), &NotationPolicy).expect("LALR(1)");
    let mut parser = Parser::new(&table, ParseTreeAction::new());
    parser.parse(notation_tokens(input))
}

fn leaf(kind: &str, text: &str, start: usize) -> ParseTreeNode {
    ParseTreeNode::terminal(
        Terminal::named(kind),
        text.to_string(),
        Span::new(start, start + text.len(), 1, 1),
    )
}

fn inner(symbol: &str, children: Vec<ParseTreeNode>) -> ParseTreeNode {
    ParseTreeNode::non_terminal(NonTerminal::named(symbol), children, Span::new(0, 0, 1, 1))
}

fn rules_of(result: &GeneratorResult) -> Vec<(String, String, bool)> {
    result.token_rules.iter().map(|r| (r.kind.0.clone(), r.regex.clone(), r.skip)).collect()
}

fn rule(kind: &str, regex: &str, skip: bool) -> (String, String, bool) {
    (kind.to_string(), regex.to_string(), skip)
}

fn grammar_error(error: GrammarError) -> Option<GeneratorError> {
    Some(GeneratorError::Grammar(error))
}

fn classification_error(error: ClassificationError) -> Option<GeneratorError> {
    Some(GeneratorError::Classification(error))
}

#[test]
fn greedy_whitespace() {
    let tree = read_tree("x = a ~ ~ b").expect("the text is a grammar");
    assert_eq!(
        tree,
        inner(
            "Grammar",
            vec![inner(
                "Rule",
                vec![
                    leaf("LeftIdentifier", "x", 0),
                    leaf("Equal", "=", 2),
                    inner(
                        "Expression",
                        vec![inner(
                            "Term",
                            vec![
                                inner(
                                    "Factor",
                                    vec![
                                        leaf("Identifier", "a", 4),
                                        inner(
                                            "FactorRepetition",
                                            vec![leaf("Tilde", "~", 6), leaf("Tilde", "~", 8)],
                                        ),
                                    ],
                                ),
                                inner("Factor", vec![leaf("Identifier", "b", 10)]),
                            ],
                        )],
                    ),
                ],
            )],
        )
    );
}

#[test]
fn alternation_flattening() {
    let tree = read_tree("e = a | b | c").expect("the text is a grammar");
    let rule = &tree.get_children()[0];
    let expression = &rule.get_children()[2];
    assert!(expression.is_non_terminal(&NonTerminal::named("Expression")));
    let children = expression.get_children();
    assert_eq!(children.len(), 5);
    let terms: Vec<&ParseTreeNode> =
        children.iter().filter(|c| c.is_non_terminal(&NonTerminal::named("Term"))).collect();
    assert_eq!(terms.len(), 3);
    assert!(children.iter().all(|c| !c.is_non_terminal(&NonTerminal::named("Expression"))));
    assert!(children[1].is_terminal(&Terminal::named("Pipe")));
    assert!(children[3].is_terminal(&Terminal::named("Pipe")));
    assert_eq!(terms[2].get_children()[0].get_children()[0].get_lexeme(), "c");
}

#[test]
fn directives_and_lists_stay_flat() {
    let tree = read_tree("@hide = a, b, c\n@drop = \"x\"\nr = /y/ ~").expect("a grammar");
    assert_eq!(
        tree,
        inner(
            "Grammar",
            vec![
                inner(
                    "Directive",
                    vec![
                        leaf("At", "@", 0),
                        leaf("LeftIdentifier", "hide", 1),
                        leaf("Equal", "=", 6),
                        inner(
                            "List",
                            vec![
                                leaf("Identifier", "a", 8),
                                leaf("Comma", ",", 9),
                                leaf("Identifier", "b", 11),
                                leaf("Comma", ",", 12),
                                leaf("Identifier", "c", 14),
                            ],
                        ),
                    ],
                ),
                inner(
                    "Directive",
                    vec![
                        leaf("At", "@", 16),
                        leaf("LeftIdentifier", "drop", 17),
                        leaf("Equal", "=", 22),
                        leaf("Literal", "\"x\"", 24),
                    ],
                ),
                inner(
                    "Rule",
                    vec![
                        leaf("LeftIdentifier", "r", 28),
                        leaf("Equal", "=", 30),
                        inner(
                            "Expression",
                            vec![inner(
                                "Term",
                                vec![inner(
                                    "Factor",
                                    vec![
                                        leaf("Regex", "/y/", 32),
                                        inner("FactorRepetition", vec![leaf("Tilde", "~", 36)]),
                                    ],
                                )],
                            )],
                        ),
                    ],
                ),
            ],
        )
    );
}

#[test]
fn a_text_that_is_no_grammar_is_a_syntax_error() {
    assert_eq!(
        read_tree("x = \n= y"),
        Err(ParseError {
            message: "Syntax Error: Unexpected token =".to_string(),
            span: Some(Span::new(5, 6, 2, 1)),
        })
    );
    assert_eq!(
        read_tree("@drop = whitespace | strings"),
        Err(ParseError {
            message: "Syntax Error: Unexpected token |".to_string(),
            span: Some(Span::new(19, 20, 1, 20)),
        })
    );
}

#[test]
fn literal_aggregation_scenario() {
    let result = read_grammar("op = \"+\" | \"-\" | \"*\"\nstart = op").expect("a grammar");
    assert_eq!(
        rules_of(&result),
        vec![
            rule("+", r"\+", false),
            rule("-", r"\-", false),
            rule("*", r"\*", false),
            rule("op", r"(\+|\-|\*)", false),
            rule("Comment", "#.*", true),
            rule("Whitespace", r"\s+", true),
        ]
    );
    assert_eq!(result.symbol_table.get_terminal_id("op"), Some(Terminal::named("op")));
    assert_eq!(result.symbol_table.get_non_terminal_id("op"), None);
    assert_eq!(result.symbol_table.get_terminal_id("+"), Some(Terminal::named("+")));
    assert_eq!(result.symbol_table.get_non_terminal_id("start"), Some(NonTerminal::named("start")));
    assert_eq!(result.grammar_rules.start_symbol, NonTerminal::named("start"));
    assert_eq!(
        result.grammar_rules.rules,
        vec![Rule::new("start", vec![GrammarSymbol::terminal("op")])]
    );
    assert!(result.parse_tree.is_non_terminal(&NonTerminal::named("Grammar")));
    assert_eq!(result.parse_tree.get_children().len(), 2);
}

#[test]
fn a_single_regex_gives_its_pattern() {
    let result = read_grammar("s = NUM\nNUM = /[0-9]+(\\/x)?/").expect("a grammar");
    assert_eq!(
        rules_of(&result),
        vec![
            rule("NUM", r"[0-9]+(\/x)?", false),
            rule("Comment", "#.*", true),
            rule("Whitespace", r"\s+", true),
        ]
    );
}

#[test]
fn productions_follow_the_rules_of_the_text() {
    let result = read_grammar(
        "s = s \"+\" p | p\ns = \"-\" p\np = N | \"(\" s \")\" | EPSILON\nN = /n/\ntop = s",
    )
    .expect("a grammar");
    let t = GrammarSymbol::terminal;
    let n = GrammarSymbol::non_terminal;
    assert_eq!(
        result.grammar_rules.rules,
        vec![
            Rule::new("s", vec![n("s"), t("+"), n("p")]),
            Rule::new("s", vec![n("p")]),
            Rule::new("s", vec![t("-"), n("p")]),
            Rule::new("p", vec![t("N")]),
            Rule::new("p", vec![t("("), n("s"), t(")")]),
            Rule::new("p", Vec::new()),
            Rule::new("top", vec![n("s")]),
        ]
    );
    assert_eq!(result.grammar_rules.start_symbol, NonTerminal::named("top"));
    assert_eq!(
        rules_of(&result),
        vec![
            rule("+", r"\+", false),
            rule("-", r"\-", false),
            rule("(", r"\(", false),
            rule(")", r"\)", false),
            rule("N", "n", false),
            rule("Comment", "#.*", true),
            rule("Whitespace", r"\s+", true),
        ]
    );
}

#[test]
fn empty_grammar_has_no_start() {
    assert_eq!(read_grammar("  \n# nothing\n").err(), grammar_error(GrammarError::NoStartSymbol));
    assert_eq!(read_grammar("").err(), grammar_error(GrammarError::NoStartSymbol));
    assert_eq!(
        read_grammar("@drop = whitespace").err(),
        grammar_error(GrammarError::NoStartSymbol)
    );
    assert_eq!(read_grammar("A = \"a\"").err(), grammar_error(GrammarError::NoStartSymbol));
}

#[test]
fn a_grammar_whose_symbols_all_occur_on_right_hand_sides_has_no_start() {
    assert_eq!(
        read_grammar("a = b X\nb = a X | X\nX = \"x\"").err(),
        grammar_error(GrammarError::NoStartSymbol)
    );
    assert_eq!(read_grammar("a = a X | X\nX = \"x\"").err(), grammar_error(GrammarError::NoStartSymbol));
}

#[test]
fn two_candidates_for_the_start_are_an_error() {
    assert_eq!(
        read_grammar("b = X\na = X b\nc = X\nX = \"x\"").err(),
        grammar_error(GrammarError::AmbiguousStart(vec!["a".to_string(), "c".to_string()]))
    );
}

#[test]
fn a_symbol_that_is_not_defined_is_an_error() {
    assert_eq!(
        read_grammar("s = X y\nX = \"x\"").err(),
        grammar_error(GrammarError::MissingSymbol("y".to_string()))
    );
}

#[test]
fn patterns_that_do_not_go_together_are_errors() {
    assert_eq!(
        read_grammar("s = X\nX = /a/ | /b/").err(),
        classification_error(ClassificationError::MultipleRegex("X".to_string()))
    );
    assert_eq!(
        read_grammar("s = X\nX = /a/ | \"b\"").err(),
        classification_error(ClassificationError::MixedPatterns("X".to_string()))
    );
    assert_eq!(
        read_grammar("s = X /a/\nX = \"x\"").err(),
        classification_error(ClassificationError::RegexInNonTerminal("s".to_string()))
    );
    assert_eq!(
        read_grammar("s = X /a/ /b/\nX = /a/ \"x\"").err(),
        classification_error(ClassificationError::MultipleRegex("s".to_string()))
    );
}

#[test]
fn a_group_gives_way_to_its_alternatives() {
    let result = read_grammar("s = A ( B | C s ) D | ( A )\nA = \"a\"\nB = \"b\"\nC = \"c\"\nD = \"d\"\ntop = s")
        .expect("a grammar");
    let t = GrammarSymbol::terminal;
    let n = GrammarSymbol::non_terminal;
    assert_eq!(
        result.grammar_rules.rules,
        vec![
            Rule::new("s", vec![t("A"), t("B"), t("D")]),
            Rule::new("s", vec![t("A"), t("C"), n("s"), t("D")]),
            Rule::new("s", vec![t("A")]),
            Rule::new("top", vec![n("s")]),
        ]
    );
}

#[test]
fn options_and_repetitions_become_rules_of_their_own() {
    let result = read_grammar("list = ITEM { \",\" ITEM } [ \";\" ]\nITEM = /[a-z]+/").expect("a grammar");
    let t = GrammarSymbol::terminal;
    let n = GrammarSymbol::non_terminal;
    assert_eq!(result.grammar_rules.start_symbol, NonTerminal::named("list"));
    assert_eq!(
        result.grammar_rules.rules,
        vec![
            Rule::new("list", vec![t("ITEM"), n("list#0"), n("list#1")]),
            Rule::new("list#0", vec![n("list#0"), t(","), t("ITEM")]),
            Rule::new("list#0", Vec::new()),
            Rule::new("list#1", vec![t(";")]),
            Rule::new("list#1", Vec::new()),
        ]
    );
    assert_eq!(
        rules_of(&result),
        vec![
            rule(",", ",", false),
            rule(";", ";", false),
            rule("ITEM", "[a-z]+", false),
            rule("Comment", "#.*", true),
            rule("Whitespace", r"\s+", true),
        ]
    );
    assert_eq!(result.symbol_table.get_non_terminal_id("list#1"), Some(NonTerminal::named("list#1")));
    assert_eq!(result.symbol_table.get_terminal_id("list#1"), None);
}

#[test]
fn constructs_within_constructs_are_numbered_from_the_outside() {
    let result = read_grammar("a = X\ns = { [ X ] ( X | { X X } ) } X\nX = \"x\"\ntop = a s").expect("a grammar");
    let t = GrammarSymbol::terminal;
    let n = GrammarSymbol::non_terminal;
    assert_eq!(
        result.grammar_rules.rules,
        vec![
            Rule::new("a", vec![t("X")]),
            Rule::new("s", vec![n("s#0"), t("X")]),
            Rule::new("s#1", vec![t("X")]),
            Rule::new("s#1", Vec::new()),
            Rule::new("s#2", vec![n("s#2"), t("X"), t("X")]),
            Rule::new("s#2", Vec::new()),
            Rule::new("s#0", vec![n("s#0"), n("s#1"), t("X")]),
            Rule::new("s#0", vec![n("s#0"), n("s#1"), n("s#2")]),
            Rule::new("s#0", Vec::new()),
            Rule::new("top", vec![n("a"), n("s")]),
        ]
    );
}

#[test]
fn a_pattern_in_a_repetition_is_an_error() {
    assert_eq!(
        read_grammar("s = { /a/ }").err(),
        classification_error(ClassificationError::RegexInNonTerminal("s#0".to_string()))
    );
    assert_eq!(
        read_grammar("s = [ s ]").err(),
        grammar_error(GrammarError::NoStartSymbol)
    );
}

#[test]
fn comments_and_white_space_get_names_of_their_own() {
    let result =
        read_grammar("s = Comment Whitespace Comment1\nComment = \"c\"\nWhitespace = /w/\nComment1 = \"d\"")
            .expect("a grammar");
    assert_eq!(
        rules_of(&result),
        vec![
            rule("c", "c", false),
            rule("Comment", "c", false),
            rule("Whitespace", "w", false),
            rule("d", "d", false),
            rule("Comment1", "d", false),
            rule("Comment2", "#.*", true),
            rule("Whitespace1", r"\s+", true),
        ]
    );
    assert_eq!(result.symbol_table.get_terminal_id("Comment2"), Some(Terminal::named("Comment2")));
    assert_eq!(result.symbol_table.get_terminal_id("Whitespace1"), Some(Terminal::named("Whitespace1")));
}

#[test]
fn rules_of_one_name_are_taken_together() {
    let mut action = GeneratorAction::new();
    let x = || Symbol::Identifier("x".to_string());
    action.add_production("a".to_string(), vec![vec![x()]]);
    action.add_production("b".to_string(), vec![vec![Symbol::Literal("\"l\"".to_string())]]);
    action.add_production("a".to_string(), vec![vec![Symbol::Epsilon], vec![x(), x()]]);
    action.add_production("x".to_string(), vec![vec![Symbol::Regex("/r/".to_string())]]);
    let result = action.on_accept().expect("a grammar");
    assert_eq!(
        result.grammar_rules.rules,
        vec![
            Rule::new("a", vec![GrammarSymbol::terminal("x")]),
            Rule::new("a", Vec::new()),
            Rule::new("a", vec![GrammarSymbol::terminal("x"), GrammarSymbol::terminal("x")]),
        ]
    );
    assert_eq!(result.grammar_rules.start_symbol, NonTerminal::named("a"));
    assert_eq!(
        rules_of(&result),
        vec![
            rule("l", "l", false),
            rule("b", "l", false),
            rule("x", "r", false),
            rule("Comment", "#.*", true),
            rule("Whitespace", r"\s+", true),
        ]
    );
    assert_eq!(result.parse_tree, inner("Grammar", Vec::new()));
    assert_eq!(GeneratorAction::default().on_accept().err(), grammar_error(GrammarError::NoStartSymbol));
}

#[test]
fn a_literal_names_the_non_terminal_of_its_text() {
    let rules = vec![
        Production {
            lhs: "s".to_string(),
            alternatives: vec![vec![
                Symbol::Literal("\"t\"".to_string()),
                Symbol::Identifier("t".to_string()),
            ]],
            lowered: false,
        },
        Production {
            lhs: "t".to_string(),
            alternatives: vec![vec![Symbol::Identifier("X".to_string())]],
            lowered: false,
        },
        Production {
            lhs: "X".to_string(),
            alternatives: vec![vec![Symbol::Literal("'x'".to_string())]],
            lowered: false,
        },
    ];
    let generated = GeneratorAction::generate_result(&rules).expect("a grammar");
    let n = GrammarSymbol::non_terminal;
    assert_eq!(
        generated.grammar_rules.rules,
        vec![Rule::new("s", vec![n("t"), n("t")]), Rule::new("t", vec![GrammarSymbol::terminal("X")])]
    );
    let shown: Vec<(String, String)> =
        generated.token_rules.iter().map(|r| (r.kind.0.clone(), r.regex.clone())).collect();
    assert_eq!(
        shown,
        vec![
            ("t".to_string(), "t".to_string()),
            ("x".to_string(), "x".to_string()),
            ("X".to_string(), "x".to_string()),
            ("Comment".to_string(), "#.*".to_string()),
            ("Whitespace".to_string(), r"\s+".to_string()),
        ]
    );
}

#[test]
fn atoms_are_sorted_by_kind() {
    let alternatives = vec![
        vec![Symbol::Literal("\"a\"".to_string()), Symbol::Identifier("i".to_string())],
        vec![Symbol::Epsilon],
        vec![Symbol::Regex("/r/".to_string()), Symbol::Literal("b".to_string())],
    ];
    let patterns = scan(&alternatives);
    assert_eq!(patterns.literals, vec!["a", "b"]);
    assert_eq!(patterns.regexes, vec!["/r/"]);
    assert_eq!(patterns.identifiers, vec!["i"]);
    let production = Production { lhs: "n".to_string(), alternatives, lowered: false };
    assert_eq!(
        check_patterns(&production, &patterns),
        Err(ClassificationError::RegexInNonTerminal("n".to_string()))
    );
    let mut rules = Vec::new();
    push_token_rules(&mut rules, &production, &patterns);
    let shown: Vec<(String, String)> = rules.iter().map(|r| (r.kind.0.clone(), r.regex.clone())).collect();
    assert_eq!(shown, vec![("a".to_string(), "a".to_string()), ("b".to_string(), "b".to_string())]);
    let empty =
        Production { lhs: "e".to_string(), alternatives: vec![vec![Symbol::Epsilon]], lowered: false };
    let none = scan(&empty.alternatives);
    assert_eq!(check_patterns(&empty, &none), Ok(()));
    let mut rules = Vec::new();
    push_token_rules(&mut rules, &empty, &none);
    assert!(rules.is_empty());
}

#[test]
fn atoms_are_looked_up_in_the_symbol_table() {
    let table = table_of(&["x", "both"], &["s", "both"]);
    let t = GrammarSymbol::terminal;
    let n = GrammarSymbol::non_terminal;
    assert_eq!(symbol_for(&Symbol::Epsilon, &table), Ok(None));
    assert_eq!(symbol_for(&Symbol::Identifier("x".to_string()), &table), Ok(Some(t("x"))));
    assert_eq!(symbol_for(&Symbol::Literal("\"x\"".to_string()), &table), Ok(Some(t("x"))));
    assert_eq!(symbol_for(&Symbol::Identifier("both".to_string()), &table), Ok(Some(n("both"))));
    assert_eq!(symbol_for(&Symbol::Identifier("y".to_string()), &table), Err("y".to_string()));
    assert_eq!(symbol_for(&Symbol::Regex("/x/".to_string()), &table), Err("/x/".to_string()));
    let atoms = vec![
        Symbol::Identifier("s".to_string()),
        Symbol::Epsilon,
        Symbol::Literal("'x'".to_string()),
    ];
    assert_eq!(symbols_for(&atoms, &table), Ok(vec![n("s"), t("x")]));
    let bad = vec![
        Symbol::Identifier("s".to_string()),
        Symbol::Identifier("u".to_string()),
        Symbol::Identifier("v".to_string()),
    ];
    assert_eq!(symbols_for(&bad, &table), Err("u".to_string()));
    assert_eq!(
        rules_for(&"s".to_string(), &vec![atoms.clone(), Vec::new(), vec![Symbol::Epsilon]], &table),
        Ok(vec![
            Rule::new("s", vec![n("s"), t("x")]),
            Rule::new("s", Vec::new()),
            Rule::new("s", Vec::new()),
        ])
    );
    assert_eq!(rules_for(&"s".to_string(), &vec![atoms.clone(), bad.clone()], &table), Err("u".to_string()));
    let productions = vec![
        Production { lhs: "x".to_string(), alternatives: vec![bad], lowered: false },
        Production { lhs: "s".to_string(), alternatives: vec![atoms], lowered: false },
    ];
    assert_eq!(
        all_rules_for(&productions, &vec![true, false], &table),
        Ok(vec![Rule::new("s", vec![n("s"), t("x")])])
    );
    assert_eq!(all_rules_for(&productions, &vec![false, false], &table), Err("u".to_string()));
}

#[test]
fn the_tree_action_leaves_grouping_symbols_out() {
    let mut action = ParseTreeAction::new();
    let t = GrammarSymbol::terminal;
    action.on_shift(Token::new("Identifier", "a", 0, 1));
    for name in [
        "Atom", "Value", "Grammar", "GrammarRepetition", "ListRepetition", "ExpressionRepetition",
        "TermRepetition",
    ] {
        action.on_reduce(&NonTerminal::named(name), &[t("Identifier")]);
    }
    action.on_reduce(&NonTerminal::named("FactorRepetition"), &[]);
    action.on_reduce(&NonTerminal::named("Factor"), &[t("a"), t("b")]);
    action.on_reduce(&NonTerminal::named("Term"), &[t("a")]);
    action.on_reduce(&NonTerminal::named("Term"), &[t("a")]);
    let error = action.on_error(Token::new("Pipe", "|", 1, 2), Span::new(1, 2, 1, 2));
    assert_eq!(
        error,
        ParseError {
            message: "Syntax Error: Unexpected token |".to_string(),
            span: Some(Span::new(1, 2, 1, 2)),
        }
    );
    assert_eq!(
        action.on_accept(),
        inner(
            "Grammar",
            vec![inner("Term", vec![inner("Factor", vec![leaf("Identifier", "a", 0)])])]
        )
    );
    assert_eq!(action.on_accept(), inner("Grammar", Vec::new()));
}

#[test]
fn a_rule_that_cannot_be_read_is_an_error() {
    let mut action = GeneratorAction::new();
    action.on_shift(Token::new("LeftIdentifier", "a", 0, 1));
    action.on_reduce(&NonTerminal::named("Rule"), &[GrammarSymbol::terminal("LeftIdentifier")]);
    assert_eq!(
        action.on_accept().err(),
        grammar_error(GrammarError::MalformedRule(
            "Rule does not hold an identifier, a sign and an expression".to_string()
        ))
    );
    let t = GrammarSymbol::terminal;
    let mut action = GeneratorAction::new();
    action.on_shift(Token::new("LeftIdentifier", "a", 0, 1));
    action.on_shift(Token::new("Equal", "=", 1, 2));
    action.on_shift(Token::new("Comma", ",", 2, 3));
    action.on_reduce(&NonTerminal::named("Factor"), &[t("Comma")]);
    action.on_reduce(&NonTerminal::named("Term"), &[t("Factor")]);
    action.on_reduce(&NonTerminal::named("Expression"), &[t("Term")]);
    action.on_reduce(&NonTerminal::named("Rule"), &[t("a"), t("b"), t("c")]);
    action.add_production("b".to_string(), vec![vec![Symbol::Regex("/b/".to_string())]]);
    assert_eq!(
        action.on_accept().err(),
        grammar_error(GrammarError::MalformedRule("Unexpected terminal token: Comma".to_string()))
    );
    assert_eq!(action.on_accept().err(), grammar_error(GrammarError::NoStartSymbol));
}

#[test]
fn a_pattern_of_two_slashes_is_the_empty_pattern() {
    let rules = vec![
        Production {
            lhs: "s".to_string(),
            alternatives: vec![vec![Symbol::Identifier("t".to_string())]],
            lowered: false,
        },
        Production {
            lhs: "t".to_string(),
            alternatives: vec![vec![Symbol::Regex("//".to_string())]],
            lowered: false,
        },
    ];
    let generated = GeneratorAction::generate_result(&rules).expect("a grammar");
    let shown: Vec<(String, String, bool)> =
        generated.token_rules.iter().map(|r| (r.kind.0.clone(), r.regex.clone(), r.skip)).collect();
    assert_eq!(
        shown,
        vec![
            ("t".to_string(), "".to_string(), false),
            ("Comment".to_string(), "#.*".to_string(), true),
            ("Whitespace".to_string(), r"\s+".to_string(), true),
        ]
    );
    assert_eq!(
        generated.grammar_rules.rules,
        vec![Rule::new("s", vec![GrammarSymbol::terminal("t")])]
    );
}
