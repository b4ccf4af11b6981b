use rustcc::common::parse_tree::Span;
use rustcc::common::symbol_table::Terminal;
use rustcc::common::token_rules::Rule;
use rustcc::compiler::lexer::{Lexer, LexicalError, LocatedToken, Token};
use rustcc::cpp::adapter::{BridgeToken, CppLexerAdapter};
use rustcc::generator::processor::Processor;
use rustcc::generator::token_rules::token_rules;

fn token(kind: &str, text: &str, start: usize, end: usize, line: usize, column: usize) -> LocatedToken {
    LocatedToken { token: Token::new(kind, text, start, end), span: Span::new(start, end, line, column) }
}

fn notation_lexer() -> Lexer {
    Lexer::new(&token_rules()).expect("the patterns of the notation compile")
}

fn kinds(tokens: &[LocatedToken]) -> Vec<(String, String)> {
    tokens.iter().map(|t| (t.token.kind.0.clone(), t.token.text.clone())).collect()
}

fn named(kind: &str, text: &str) -> (String, String) {
    (kind.to_string(), text.to_string())
}

#[test]
fn tokens_carry_their_places() {
    let tokens = notation_lexer().tokenize("foo = foo\n  bar").expect("tokens");
    assert_eq!(
        tokens,
        vec![
            token("Identifier", "foo", 0, 3, 1, 1),
            token("Equal", "=", 4, 5, 1, 5),
            token("Identifier", "foo", 6, 9, 1, 7),
            token("Identifier", "bar", 12, 15, 2, 3),
            token("<EOF>", "", 15, 15, 2, 6),
        ]
    );
}

#[test]
fn every_sign_of_the_notation_is_a_token() {
    let tokens = notation_lexer()
        .tokenize("@ = | { } [ ] ( ) , ~ & ! <-& <-! EPSILON \"a\\\"b\" /x\\/y/ name_1 # rest")
        .expect("tokens");
    assert_eq!(
        kinds(&tokens),
        vec![
            named("At", "@"),
            named("Equal", "="),
            named("Pipe", "|"),
            named("LeftBrace", "{"),
            named("RightBrace", "}"),
            named("LeftBracket", "["),
            named("RightBracket", "]"),
            named("LeftParentheses", "("),
            named("RightParentheses", ")"),
            named("Comma", ","),
            named("Tilde", "~"),
            named("PositiveLookAhead", "&"),
            named("NegativeLookAhead", "!"),
            named("PositiveLookBehind", "<-&"),
            named("NegativeLookBehind", "<-!"),
            named("Empty", "EPSILON"),
            named("Literal", "\"a\\\"b\""),
            named("Regex", "/x\\/y/"),
            named("Identifier", "name_1"),
            named("<EOF>", ""),
        ]
    );
}

#[test]
fn whitespace_only_input_is_one_token() {
    let tokens = notation_lexer().tokenize("  \n\t # nothing\n ").expect("tokens");
    assert_eq!(tokens, vec![token("<EOF>", "", 16, 16, 3, 2)]);
    let tokens = notation_lexer().tokenize("").expect("tokens");
    assert_eq!(tokens, vec![token("<EOF>", "", 0, 0, 1, 1)]);
}

#[test]
fn unrecognized_input_is_an_error() {
    let result = notation_lexer().tokenize("a = $ b");
    assert_eq!(
        result,
        Err(LexicalError::Unrecognized { text: "$".to_string(), span: Span::new(4, 5, 1, 5) })
    );
    let result = notation_lexer().tokenize("a\n  é");
    assert_eq!(
        result,
        Err(LexicalError::Unrecognized { text: "é".to_string(), span: Span::new(4, 6, 2, 3) })
    );
}

#[test]
fn text_of_more_than_one_byte_is_counted_by_characters() {
    let tokens = notation_lexer().tokenize("# é ü\n\"é\" x").expect("tokens");
    assert_eq!(
        tokens,
        vec![
            token("Literal", "\"é\"", 8, 12, 2, 1),
            token("Identifier", "x", 13, 14, 2, 5),
            token("<EOF>", "", 14, 14, 2, 6),
        ]
    );
}

#[test]
fn line_and_column_count_from_one() {
    assert_eq!(Lexer::compute_line_col("ab\ncd", 0), (1, 1));
    assert_eq!(Lexer::compute_line_col("ab\ncd", 2), (1, 3));
    assert_eq!(Lexer::compute_line_col("ab\ncd", 3), (2, 1));
    assert_eq!(Lexer::compute_line_col("ab\ncd", 5), (2, 3));
    assert_eq!(Lexer::compute_line_col("ab\ncd", 99), (2, 3));
    assert_eq!(Lexer::compute_line_col("", 0), (1, 1));
    assert_eq!(Lexer::compute_line_col("\n\n", 2), (3, 1));
    assert_eq!(Lexer::compute_line_col("é\nüx", 2), (1, 2));
    assert_eq!(Lexer::compute_line_col("é\nüx", 5), (2, 2));
}

#[test]
fn the_earlier_rule_decides() {
    let rules = vec![
        Rule::new("Short", "ab", false),
        Rule::new("Long", "abc", false),
        Rule::new("Rest", "c", false),
        Rule::new("Space", " +", true),
    ];
    let lexer = Lexer::new(&rules).expect("the patterns compile");
    let tokens = lexer.tokenize("abc  ab").expect("tokens");
    assert_eq!(
        kinds(&tokens),
        vec![named("Short", "ab"), named("Rest", "c"), named("Short", "ab"), named("<EOF>", "")]
    );
}

#[test]
fn a_pattern_that_is_no_expression_is_an_error() {
    let rules = vec![
        Rule::new("Good", "a+", false),
        Rule::new("Bad", "(", false),
        Rule::new("Worse", "[", false),
    ];
    assert_eq!(Lexer::new(&rules).err(), Some(LexicalError::InvalidPattern("Bad".to_string())));
    assert!(Lexer::new(&Vec::new()).is_ok());
}

#[test]
fn a_rule_that_takes_no_text_stalls() {
    let rules = vec![Rule::new("Stars", "a*", false)];
    let lexer = Lexer::new(&rules).expect("the pattern compiles");
    assert_eq!(kinds(&lexer.tokenize("aa").expect("tokens")), vec![named("Stars", "aa"), named("<EOF>", "")]);
    assert_eq!(lexer.tokenize("ab"), Err(LexicalError::Stalled(Span::new(1, 1, 1, 2))));
}

#[test]
fn contextual_identifier_retag() {
    let tokens = Processor::process(notation_lexer().tokenize("foo = foo bar").expect("tokens"));
    assert_eq!(
        kinds(&tokens),
        vec![
            named("LeftIdentifier", "foo"),
            named("Equal", "="),
            named("Identifier", "foo"),
            named("Identifier", "bar"),
            named("<EOF>", ""),
        ]
    );
}

#[test]
fn retagging_keeps_everything_but_the_kind() {
    let tokens = vec![
        token("Identifier", "a", 0, 1, 1, 1),
        token("Equal", "=", 2, 3, 1, 3),
        token("IDENTIFIER", "b", 4, 5, 1, 5),
        token("=", "=", 6, 7, 1, 7),
        token("Identifier", "c", 8, 9, 1, 9),
        token("=", "=", 10, 11, 1, 11),
        token("IDENTIFIER", "d", 12, 13, 1, 13),
        token("Equal", "=", 14, 15, 1, 15),
        token("Identifier", "e", 16, 17, 1, 17),
    ];
    assert_eq!(
        Processor::process(tokens),
        vec![
            token("LeftIdentifier", "a", 0, 1, 1, 1),
            token("Equal", "=", 2, 3, 1, 3),
            token("LEFT_IDENTIFIER", "b", 4, 5, 1, 5),
            token("=", "=", 6, 7, 1, 7),
            token("Identifier", "c", 8, 9, 1, 9),
            token("=", "=", 10, 11, 1, 11),
            token("IDENTIFIER", "d", 12, 13, 1, 13),
            token("Equal", "=", 14, 15, 1, 15),
            token("Identifier", "e", 16, 17, 1, 17),
        ]
    );
    assert_eq!(Processor::process(Vec::new()), Vec::new());
}

#[test]
fn the_processor_gives_as_many_tokens_as_it_takes() {
    let mut processor = Processor::start(Some(token("Identifier", "a", 0, 1, 1, 1)));
    assert_eq!(
        processor.advance(Some(token("Equal", "=", 1, 2, 1, 2))),
        Some(token("LeftIdentifier", "a", 0, 1, 1, 1))
    );
    assert_eq!(
        processor.advance(Some(token("<EOF>", "", 2, 2, 1, 3))),
        Some(token("Equal", "=", 1, 2, 1, 2))
    );
    assert_eq!(processor.advance(None), Some(token("<EOF>", "", 2, 2, 1, 3)));
    assert_eq!(processor.advance(None), None);
    let mut empty = Processor::start(None);
    assert_eq!(empty.advance(None), None);
}

#[test]
fn foreign_tokens_follow_each_other() {
    let tokens = vec![
        BridgeToken { kind: "NUMBER".to_string(), value: "42".to_string(), line: 1, column: 1 },
        BridgeToken { kind: "".to_string(), value: "é".to_string(), line: 1, column: 4 },
        BridgeToken { kind: "PLUS".to_string(), value: "+".to_string(), line: 2, column: 1 },
        BridgeToken { kind: "END".to_string(), value: "".to_string(), line: 2, column: 2 },
    ];
    assert_eq!(
        CppLexerAdapter::locate(tokens),
        vec![
            token("NUMBER", "42", 0, 2, 1, 1),
            token("<UNRECOGNIZED>", "é", 2, 4, 1, 4),
            token("PLUS", "+", 4, 5, 2, 1),
            token("END", "", 5, 5, 2, 2),
        ]
    );
    assert_eq!(CppLexerAdapter::locate(Vec::new()), Vec::new());
}

#[test]
fn tokens_are_copied_whole() {
    let one = token("Identifier", "a", 0, 1, 1, 1);
    assert_eq!(one.clone(), one);
    assert_eq!(one.token.clone(), one.token);
    assert_eq!(one.token.kind, Terminal::named("Identifier"));
}

#[test]
fn unrecognized_text_runs_to_the_next_match() {
    let result = notation_lexer().tokenize("a = $$$ b");
    assert_eq!(
        result,
        Err(LexicalError::Unrecognized { text: "$$$".to_string(), span: Span::new(4, 7, 1, 5) })
    );
    let result = notation_lexer().tokenize("a = $$b");
    assert_eq!(
        result,
        Err(LexicalError::Unrecognized { text: "$$".to_string(), span: Span::new(4, 6, 1, 5) })
    );
    let result = notation_lexer().tokenize("a = $é$");
    assert_eq!(
        result,
        Err(LexicalError::Unrecognized { text: "$é$".to_string(), span: Span::new(4, 8, 1, 5) })
    );
}

#[test]
fn patterns_match_only_where_they_are_tried() {
    let rules = vec![Rule::new("B", "b", false), Rule::new("C", "^c", false)];
    let lexer = Lexer::new(&rules).expect("a lexer");
    assert_eq!(
        lexer.tokenize("ab"),
        Err(LexicalError::Unrecognized { text: "a".to_string(), span: Span::new(0, 1, 1, 1) })
    );
    assert_eq!(
        lexer.tokenize("bcb").map(|tokens| tokens.len()),
        Ok(4)
    );
}
