use rustcc::common::error::{ClassificationError, Error, GrammarError};
use rustcc::common::grammar_rules::{GrammarRules, GrammarSymbol, Rule};
use rustcc::common::parse_table::AlwaysReduce;
use rustcc::common::parse_tree::{ParseError, ParseTreeNode, Span};
use rustcc::common::symbol_table::{NonTerminal, Terminal};
use rustcc::compiler::lexer::{Lexer, LexicalError};
use rustcc::generator::bootstrap::{read_grammar, tokens_for, Language};
use rustcc::generator::processor::mark_left_identifiers;
use rustcc::generator::token_rules::token_rules;

const SUMS: &str = "sums = sum\nsum = sum PLUS NUM | NUM\nPLUS = /\\+/\nNUM = /[0-9]+/\n";

fn leaf(kind: &str, text: &str, start: usize) -> ParseTreeNode {
    ParseTreeNode::terminal(
        Terminal::named(kind),
        text.to_string(),
        Span::new(start, start + text.len(), 1, 1),
    )
}

fn inner(symbol: &str, children: Vec<ParseTreeNode>) -> ParseTreeNode {
    ParseTreeNode::non_terminal(NonTerminal::named(symbol), children, Span::new(0, 0, 1, 1))
}

#[test]
fn each_kind_of_error_comes_from_its_stage() {
    assert_eq!(
        read_grammar("a = $").err(),
        Some(Error::Lexical(LexicalError::Unrecognized {
            text: "$".to_string(),
            span: Span::new(4, 5, 1, 5),
        }))
    );
    assert_eq!(
        read_grammar("a = = b").err(),
        Some(Error::Syntax(ParseError {
            message: "Syntax Error: Unexpected token =".to_string(),
            span: Some(Span::new(4, 5, 1, 5)),
        }))
    );
    assert_eq!(read_grammar("a = b").err(), Some(Error::Grammar(GrammarError::MissingSymbol("b".to_string()))));
    assert_eq!(
        read_grammar("A = /a/ /b/").err(),
        Some(Error::Classification(ClassificationError::MultipleRegex("A".to_string())))
    );
    assert_eq!(read_grammar("").err(), Some(Error::Grammar(GrammarError::NoStartSymbol)));
}

#[test]
fn two_passes_give_a_parser() {
    let result = read_grammar(SUMS).expect("the text describes a grammar");
    assert_eq!(result.grammar_rules.start_symbol, NonTerminal::named("sums"));
    let language = Language::new(&result, &AlwaysReduce).expect("the grammar is LALR(1)");
    assert_eq!(language.start, NonTerminal::named("sums"));
    assert_eq!(
        language.parse("1 + 20"),
        Ok(inner(
            "sums",
            vec![inner(
                "sum",
                vec![
                    inner("sum", vec![leaf("NUM", "1", 0)]),
                    leaf("PLUS", "+", 2),
                    leaf("NUM", "20", 4),
                ],
            )],
        ))
    );
    assert_eq!(
        language.parse("1 +"),
        Err(Error::Syntax(ParseError {
            message: "Syntax Error: Unexpected token ".to_string(),
            span: Some(Span::new(3, 3, 1, 4)),
        }))
    );
    assert_eq!(
        language.parse("1 - 2"),
        Err(Error::Lexical(LexicalError::Unrecognized {
            text: "-".to_string(),
            span: Span::new(2, 3, 1, 3),
        }))
    );
    assert!(matches!(language.parse(" \n "), Err(Error::Syntax(_))));
}

#[test]
fn a_grammar_that_allows_no_table_gives_no_parser() {
    let result = read_grammar("s = e\ne = e OP e | N\nOP = \"+\"\nN = /n/").expect("a grammar");
    assert!(matches!(
        Language::new(&result, &AlwaysReduce),
        Err(Error::Grammar(GrammarError::Conflict(_)))
    ));
    let result = read_grammar("s = N\nt = u\nu = t\nN = /n/").expect("a grammar");
    assert_eq!(
        Language::new(&result, &AlwaysReduce).err(),
        Some(Error::Grammar(GrammarError::UnreachableSymbol("t".to_string())))
    );
    let mut result = read_grammar(SUMS).expect("a grammar");
    result.token_rules[0].regex = "(".to_string();
    assert_eq!(
        Language::new(&result, &AlwaysReduce).err(),
        Some(Error::Lexical(LexicalError::InvalidPattern("PLUS".to_string())))
    );
}

#[test]
fn tokens_for_a_parser_are_retagged() {
    let lexer = Lexer::new(&token_rules()).expect("the patterns of the notation compile");
    let tokens = tokens_for(&lexer, "a = b").expect("tokens");
    let kinds: Vec<&str> = tokens.iter().map(|t| t.token.kind.0.as_str()).collect();
    assert_eq!(kinds, vec!["LeftIdentifier", "Equal", "Identifier", "<EOF>"]);
    assert!(matches!(tokens_for(&lexer, "a ; b"), Err(Error::Lexical(_))));
}

#[test]
fn left_identifiers_take_their_places() {
    let t = GrammarSymbol::terminal;
    let n = GrammarSymbol::non_terminal;
    let grammar = GrammarRules {
        start_symbol: NonTerminal::named("grammar"),
        rules: vec![
            Rule::new("directive", vec![t("@"), t("IDENTIFIER"), t("="), n("value")]),
            Rule::new("rule", vec![t("IDENTIFIER"), t("="), n("expression")]),
            Rule::new("Directive", vec![t("At"), t("Identifier"), t("Equal"), n("Value")]),
            Rule::new("Rule", vec![t("Identifier"), t("Equal"), n("Expression")]),
            Rule::new("atom", vec![t("IDENTIFIER"), t("IDENTIFIER")]),
            Rule::new("rule", Vec::new()),
            Rule::new("directive", vec![t("@")]),
            Rule::new("rule", vec![t("IDENTIFIER"), t("="), n("term")]),
            Rule::new("rule", vec![n("IDENTIFIER"), t("="), n("expression")]),
            Rule::new("directive", vec![t("@"), t("IDENTIFIER"), t("="), t("value")]),
            Rule::new("Rule", vec![t("Identifier"), t("Equal"), n("Expression"), t("Tilde")]),
            Rule::new("Directive", vec![t("@"), t("Identifier"), t("Equal"), n("Value")]),
        ],
    };
    assert_eq!(
        mark_left_identifiers(&grammar),
        GrammarRules {
            start_symbol: NonTerminal::named("grammar"),
            rules: vec![
                Rule::new("directive", vec![t("@"), t("LEFT_IDENTIFIER"), t("="), n("value")]),
                Rule::new("rule", vec![t("LEFT_IDENTIFIER"), t("="), n("expression")]),
                Rule::new("Directive", vec![t("At"), t("LeftIdentifier"), t("Equal"), n("Value")]),
                Rule::new("Rule", vec![t("LeftIdentifier"), t("Equal"), n("Expression")]),
                Rule::new("atom", vec![t("IDENTIFIER"), t("IDENTIFIER")]),
                Rule::new("rule", Vec::new()),
                Rule::new("directive", vec![t("@")]),
                Rule::new("rule", vec![t("IDENTIFIER"), t("="), n("term")]),
                Rule::new("rule", vec![n("IDENTIFIER"), t("="), n("expression")]),
                Rule::new("directive", vec![t("@"), t("IDENTIFIER"), t("="), t("value")]),
                Rule::new("Rule", vec![t("Identifier"), t("Equal"), n("Expression"), t("Tilde")]),
                Rule::new("Directive", vec![t("@"), t("Identifier"), t("Equal"), n("Value")]),
            ],
        }
    );
}

#[test]
fn a_language_with_repetitions_is_parsed() {
    let result = read_grammar("list = ITEM { COMMA ITEM }\nITEM = /[a-z]+/\nCOMMA = /,/").expect("a grammar");
    let language = Language::new(&result, &AlwaysReduce).expect("the grammar is LALR(1)");
    assert_eq!(
        language.parse("a, b"),
        Ok(inner(
            "list",
            vec![
                leaf("ITEM", "a", 0),
                inner(
                    "list#0",
                    vec![inner("list#0", Vec::new()), leaf("COMMA", ",", 1), leaf("ITEM", "b", 3)],
                ),
            ],
        ))
    );
    assert_eq!(
        language.parse("a"),
        Ok(inner("list", vec![leaf("ITEM", "a", 0), inner("list#0", Vec::new())]))
    );
    assert!(matches!(language.parse("a,"), Err(Error::Syntax(_))));
}

#[test]
fn the_notation_in_its_own_words_is_read() {
    let text = r#"
grammar     = { directive | rule }
directive   = "@" IDENTIFIER "=" value
value       = LITERAL | REGEX | list
list        = IDENTIFIER { "," IDENTIFIER }
rule        = IDENTIFIER "=" expression
expression  = term { "|" term }
term        = factor { factor }
factor      = { "~" } atom { "~" } [ lookahead ]
atom        = LITERAL | IDENTIFIER | REGEX | group | optional | repetition
group       = "(" expression ")"
optional    = "[" expression "]"
repetition  = "{" expression "}"
lookahead   = ("&"|"!"|"<-&"|"<-!") factor
LITERAL     = /"([^"\\]|\\.)*"/
REGEX       = /\/(?:[^\/\\]|\\.)*\//
IDENTIFIER  = /[A-Za-z_][A-Za-z_0-9]*/
"#;
    let result = read_grammar(text).expect("the text describes a grammar");
    assert_eq!(result.grammar_rules.start_symbol, NonTerminal::named("grammar"));
    assert!(result.parse_tree.is_non_terminal(&NonTerminal::named("Grammar")));
    assert_eq!(result.parse_tree.get_children().len(), 16);
    assert_eq!(result.grammar_rules.rules[0], Rule::new("grammar", vec![GrammarSymbol::non_terminal("grammar#0")]));
    assert_eq!(result.grammar_rules.rules.len(), 38);
    assert!(matches!(
        Language::new(&result, &AlwaysReduce),
        Err(Error::Grammar(GrammarError::Conflict(_)))
    ));
}

#[test]
fn a_non_terminal_may_be_named_like_a_rule_of_the_notation() {
    let result = read_grammar("rule = ITEM ITEM\nITEM = /[a-z]+/").expect("a grammar");
    let language = Language::new(&result, &AlwaysReduce).expect("the grammar is LALR(1)");
    assert_eq!(
        language.parse("a b"),
        Ok(inner("rule", vec![leaf("ITEM", "a", 0), leaf("ITEM", "b", 2)]))
    );
}
