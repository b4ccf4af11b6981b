use rustcc::common::action::DefaultAction;
use rustcc::common::error::{GeneratorError, GrammarError};
use rustcc::common::grammar_rules::{GrammarRules, GrammarSymbol};
use rustcc::common::lalr_table::RawItem;
use rustcc::common::parse_table::{AlwaysReduce, ConflictPolicy, ParseTable};
use rustcc::common::parse_tree::{ParseError, ParseTreeNode, Span};
use rustcc::common::symbol_table::{NonTerminal, Terminal};
use rustcc::compiler::lexer::{Lexer, LocatedToken};
use rustcc::compiler::parser::Parser;
use rustcc::generator::generator_action::{GeneratorAction, GeneratorResult};
use rustcc::generator::grammar_rules::{grammar_rules, NotationPolicy};
use rustcc::generator::processor::Processor;
use rustcc::generator::token_rules::token_rules;

const NOTATION_TEXT: &str = r#"
        # EBNF Grammar.
        # Directives.
        @comment    = /#.*/                # Comments range from a '#'-character to the end of the line.
        @whitespace = vertical             # Implicit whitespace, denoted by ~, includes any number of line feeds.
        @literalws  = both                 # Literals have implicit whitespace on the right hand side.
        @ignorecase = False                # Literals and regular expressions are case-sensitive.
        @hide       = atom, factor         # Hide some layers of the grammar for cleaner output.
        @drop       = whitespace, strings  # Drop anonymous whitespace and (anonymous) string literals.

        # Grammar.
        # grammar = { directive | rule }
        grammar = grammar directive
                | grammar rule
                | EPSILON

        # Directive.
        directive = "@" IDENTIFIER "=" value
        value = LITERAL | REGEX | list

        # list = IDENTIFIER { "," IDENTIFIER }
        list = list "," IDENTIFIER | IDENTIFIER

        # EBNF constructs.
        rule = IDENTIFIER "=" expression

        # expression = term { "|" term }
        expression = expression "|" term | term

        # term = factor { factor } | EMPTY
        term = term factor | factor | EMPTY

        # factor = { WHITESPACE } atom { WHITESPACE } [ lookahead ]
        factor = factor_repetition atom factor_repetition lookahead
               | factor_repetition atom factor_repetition
        factor_repetition = factor_repetition WHITESPACE | EPSILON

        # IDENTIFIER ! "=" negative lookahead is handled by the parser.
        atom        = LITERAL
                    | IDENTIFIER
                    | REGEX
                    | group
                    | optional
                    | repetition

        group       = "(" expression ")"
        optional    = "[" expression "]"
        repetition  = "{" expression "}"

        # lookahead = (
        #     POSITIVE_LOOKAHEAD | NEGATIVE_LOOKAHEAD | POSITIVE_LOOKBEHIND | NEGATIVE_LOOKBEHIN
        # ) factor
        lookahead = lookahead_group factor
        lookahead_group = POSITIVE_LOOKAHEAD
                        | NEGATIVE_LOOKAHEAD
                        | POSITIVE_LOOKBEHIND
                        | NEGATIVE_LOOKBEHIND

        # Look ahead / behind.
        POSITIVE_LOOKAHEAD  = "&"
        NEGATIVE_LOOKAHEAD  = "!"
        POSITIVE_LOOKBEHIND = "<-&"
        NEGATIVE_LOOKBEHIND = "<-!"

        # Whitespace.
        WHITESPACE  = "~"

        # Epsilon.
        EMPTY       = "EPSILON"

        # Tokens.
        LITERAL     = /"[^"]*"/~
        REGEX       = /\/(?:[^\/\\]|\\.)*\//~
        IDENTIFIER  = /[A-Za-z_][A-Za-z_0-9]*/~
        "#;

fn notation_tokens(input: &str) -> Vec<LocatedToken> {
    let lexer = Lexer::new(&token_rules()).expect("the patterns of the notation compile");
    Processor::process(lexer.tokenize(input).expect("the text holds tokens only"))
}

fn read_grammar(input: &str) -> Result<GeneratorResult, GeneratorError> {
    let table = ParseTable::new(&grammar_rules(), &NotationPolicy).expect("LALR(1)");
    let mut parser = Parser::new(&table, GeneratorAction::default());
    parser.parse(notation_tokens(input)).expect("Failed to parse BNF grammar")
}

fn process_rules(grammar_rules: &mut GrammarRules) {
    let left_identifier = Terminal::named("LEFT_IDENTIFIER");
    for rule in &mut grammar_rules.rules {
        if rule.non_terminal.0 == "directive" {
            rule.rhs[1] = GrammarSymbol::Terminal(left_identifier.clone());
        } else if rule.non_terminal.0 == "rule" {
            rule.rhs[0] = GrammarSymbol::Terminal(left_identifier.clone());
        }
    }
}

struct ShiftWhitespace;

impl ConflictPolicy for ShiftWhitespace {
    fn reduce_on(&self, rhs: &[GrammarSymbol], lookahead: Option<&Terminal>) -> bool {
        let factor = [
            GrammarSymbol::non_terminal("factor_repetition"),
            GrammarSymbol::non_terminal("atom"),
            GrammarSymbol::non_terminal("factor_repetition"),
        ];
        !(rhs == factor && lookahead == Some(&Terminal::named("~")))
    }

    fn priority_of(&self, _rhs: &[GrammarSymbol], _lookahead: Option<&Terminal>) -> i32 {
        0
    }
}

#[test]
fn conflict_detection() {
    let input = r#"
        # Dangling else grammar (causes shift/reduce conflict)
        S = if_stmt
        if_stmt = IF expr THEN if_stmt
                | IF expr THEN if_stmt ELSE if_stmt
                | OTHER

        IF    = "if"
        THEN  = "then"
        ELSE  = "else"
        OTHER = /[a-z]+/
        expr  = /[a-z]+/
    "#;
    let result = read_grammar(input).expect("the text describes a grammar");
    assert_eq!(result.grammar_rules.start_symbol, NonTerminal::named("S"));
    assert_eq!(result.grammar_rules.rules.len(), 4);
    assert!(Lexer::new(&result.token_rules).is_ok());
    let conflict = match ParseTable::new(&result.grammar_rules, &NotationPolicy) {
        Err(GrammarError::Conflict(conflict)) => conflict,
        other => panic!("expected a conflict, got {:?}", other.map(|_| ())),
    };
    assert_eq!(conflict.token, Some("ELSE".to_string()));
    assert_eq!(conflict.reduce, 1);
    assert_eq!(conflict.other, None);
    assert!(conflict.items.contains(&RawItem { rule: 1, position: 4 }));
    assert!(conflict.items.contains(&RawItem { rule: 2, position: 4 }));
    assert_eq!(
        result.grammar_rules.rules[2].rhs[4],
        GrammarSymbol::terminal("ELSE")
    );
}

#[test]
fn error_handing() {
    let result = read_grammar(NOTATION_TEXT);
    assert_eq!(result.err(), Some(GeneratorError::Grammar(GrammarError::NoStartSymbol)));
}

#[test]
fn test_generated_lexer_tokenization() {
    let grammar = grammar_rules();
    assert_eq!(grammar.start_symbol, NonTerminal::named("Grammar"));
    let tokens = notation_tokens(NOTATION_TEXT);
    assert_eq!(tokens.last().map(|t| t.token.kind.clone()), Some(Terminal::eof()));
    assert_eq!(tokens[0].token.kind, Terminal::named("At"));
    assert_eq!(tokens[1].token.kind, Terminal::named("LeftIdentifier"));
    let result = read_grammar(NOTATION_TEXT);
    assert_eq!(result.err(), Some(GeneratorError::Grammar(GrammarError::NoStartSymbol)));
}

#[test]
fn simple_grammar() {
    let input = r#"
        # Arithmetic Grammar (BNF, conflict-free)
        @comment     = /#.*/
        @whitespace  = vertical
        @literalws   = both
        @ignorecase  = False
        @drop        = whitespace, strings

        program = program expression | EPSILON

        expression = term expression_tail

        expression_tail = PLUS term expression_tail
                        | MINUS term expression_tail
                        | EPSILON

        term = factor term_tail

        term_tail = MUL factor term_tail
                  | DIV factor term_tail
                  | EPSILON

        factor = sign factor_base
               | factor_base

        factor_base = NUMBER
                    | VARIABLE
                    | group

        sign = POSITIVE
             | NEGATIVE

        group = "(" expression ")"

        PLUS     = "+"
        MINUS    = "-"
        MUL      = "*"
        DIV      = "/"

        POSITIVE = /[+]/
        NEGATIVE = /[-]/

        NUMBER   = /(?:0|(?:[1-9]\d*))(?:\.\d+)?/
        VARIABLE = /[A-Za-z]/
    "#;
    let result = read_grammar(input);
    assert_eq!(result.err(), Some(GeneratorError::Grammar(GrammarError::NoStartSymbol)));
}

#[test]
fn a_generated_parser_reports_syntax_errors() {
    let text = format!("start = grammar\n{}", NOTATION_TEXT);
    let mut result = read_grammar(&text).expect("the text describes a grammar");
    assert_eq!(result.grammar_rules.start_symbol, NonTerminal::named("start"));
    process_rules(&mut result.grammar_rules);
    let lexer = Lexer::new(&result.token_rules).expect("the patterns compile");
    let table = ParseTable::new(&result.grammar_rules, &NotationPolicy).expect("LALR(1)");
    let mut parser =
        Parser::new(&table, DefaultAction::new(result.grammar_rules.start_symbol.clone()));
    let test_input = r#"
        @drop       = whitespace | strings
    "#;
    let tokens = Processor::process(lexer.tokenize(test_input).expect("tokens"));
    let result = parser.parse(tokens);
    assert!(result.is_err());
    assert_eq!(
        result,
        Err(ParseError {
            message: "Syntax Error: Unexpected token |".to_string(),
            span: Some(Span::new(34, 35, 2, 34)),
        })
    );
}

#[test]
fn a_grammar_of_the_notation_reads_its_own_text() {
    let text = r#"start = grammar
grammar = grammar rule | EPSILON
rule = IDENTIFIER "=" expression
expression = expression "|" term | term
term = term factor | factor | "EPSILON"
factor = factor_repetition atom factor_repetition
factor_repetition = factor_repetition "~" | EPSILON
atom = LITERAL | IDENTIFIER | REGEX
LITERAL = /"([^"\\]|\\.)*"/
REGEX = /\/(?:[^\/\\]|\\.)*\//
IDENTIFIER = /[A-Za-z_][A-Za-z_0-9]*/
"#;
    let mut result = read_grammar(text).expect("the text describes a grammar");
    assert_eq!(result.grammar_rules.start_symbol, NonTerminal::named("start"));
    assert!(result.parse_tree.is_non_terminal(&NonTerminal::named("Grammar")));
    assert_eq!(result.parse_tree.get_children().len(), 11);
    process_rules(&mut result.grammar_rules);
    assert!(matches!(
        ParseTable::new(&result.grammar_rules, &AlwaysReduce),
        Err(GrammarError::Conflict(_))
    ));
    let table = ParseTable::new(&result.grammar_rules, &ShiftWhitespace).expect("LALR(1)");
    let lexer = Lexer::new(&result.token_rules).expect("the patterns compile");
    let tokens = Processor::process(lexer.tokenize(text).expect("tokens"));
    let count = tokens.len();
    let mut parser =
        Parser::new(&table, DefaultAction::new(result.grammar_rules.start_symbol.clone()));
    let tree = parser.parse(tokens).expect("the grammar accepts its own text");
    assert_eq!(parser.tokens_taken(), count);
    assert!(tree.is_non_terminal(&NonTerminal::named("start")));
    assert_eq!(tree.get_children().len(), 1);
    assert!(tree.get_children()[0].is_non_terminal(&NonTerminal::named("grammar")));
    let mut rules = 0;
    let mut node: &ParseTreeNode = &tree.get_children()[0];
    while node.get_children().len() == 2 {
        assert!(node.get_children()[1].is_non_terminal(&NonTerminal::named("rule")));
        rules += 1;
        node = &node.get_children()[0];
    }
    assert_eq!(rules, 11);
    assert!(node.is_empty());
}
