use rustcc::common::parse_tree::Symbol;
use rustcc::common::symbol_table::{SymbolTable, Terminal};
use rustcc::generator::generator_action::insert_unique;
use rustcc::common::text::{decimal_text, digit_text};
use rustcc::generator::patterns::{combine_literals, strip, symbols_to_strings, unquote};

#[test]
fn quotes_around_a_text_are_taken_off() {
    assert_eq!(unquote("\"abc\""), "abc");
    assert_eq!(unquote("'abc'"), "abc");
    assert_eq!(unquote("\"\""), "");
    assert_eq!(unquote("\""), "\"");
    assert_eq!(unquote("\"abc'"), "\"abc'");
    assert_eq!(unquote("abc"), "abc");
    assert_eq!(unquote(""), "");
    assert_eq!(unquote("\"é\""), "é");
}

#[test]
fn slashes_around_a_pattern_are_taken_off() {
    assert_eq!(strip("/[a-z]+/"), "[a-z]+");
    assert_eq!(strip("/a/"), "a");
    assert_eq!(strip("//"), "");
    assert_eq!(strip("/"), "/");
    assert_eq!(strip("/abc"), "/abc");
    assert_eq!(strip("abc"), "abc");
    assert_eq!(strip("/\\//"), "\\/");
}

#[test]
fn literals_are_escaped_and_joined() {
    assert_eq!(combine_literals(&[]), "");
    assert_eq!(combine_literals(&["+".to_string()]), r"\+");
    assert_eq!(combine_literals(&["ab".to_string()]), "ab");
    assert_eq!(
        combine_literals(&["+".to_string(), "-".to_string(), "*".to_string()]),
        r"(\+|\-|\*)"
    );
    assert_eq!(combine_literals(&["a".to_string(), "b".to_string()]), "(a|b)");
    assert_eq!(combine_literals(&["\"(\"".to_string(), "x".to_string()]), r"(\(|x)");
}

#[test]
fn every_meta_character_is_escaped() {
    assert_eq!(
        combine_literals(&[r"\.+*?()|[]{}^$#&-~".to_string()]),
        r"\\\.\+\*\?\(\)\|\[\]\{\}\^\$\#\&\-\~"
    );
    assert_eq!(combine_literals(&["a%/!\"e é".to_string()]), "a%/!\"e é");
}

#[test]
fn atoms_are_shown_by_their_texts() {
    assert_eq!(Symbol::Literal("\"x\"".to_string()).to_string(), "\"x\"");
    assert_eq!(Symbol::Regex("/x/".to_string()).to_string(), "/x/");
    assert_eq!(Symbol::Identifier("x".to_string()).to_string(), "x");
    assert_eq!(Symbol::Epsilon.to_string(), "EPSILON");
    let texts = symbols_to_strings(&[
        vec![Symbol::Identifier("a".to_string()), Symbol::Literal("\"b\"".to_string())],
        vec![Symbol::Epsilon],
        Vec::new(),
    ]);
    assert_eq!(
        texts,
        vec![vec!["a".to_string(), "\"b\"".to_string()], vec!["EPSILON".to_string()], Vec::new()]
    );
}

#[test]
fn numbers_in_decimal_digits() {
    assert_eq!(decimal_text(0), "0");
    assert_eq!(decimal_text(7), "7");
    assert_eq!(decimal_text(10), "10");
    assert_eq!(decimal_text(409), "409");
    assert_eq!(decimal_text(1234567890), "1234567890");
    assert_eq!(decimal_text(usize::MAX), usize::MAX.to_string());
    assert_eq!(digit_text(0), "0");
    assert_eq!(digit_text(9), "9");
}

#[test]
fn a_name_in_use_gets_a_number() {
    let mut table = SymbolTable::new();
    assert_eq!(insert_unique(&mut table, "Comment"), Some(Terminal::named("Comment")));
    assert_eq!(insert_unique(&mut table, "Comment"), Some(Terminal::named("Comment1")));
    assert_eq!(insert_unique(&mut table, "Comment"), Some(Terminal::named("Comment2")));
    table.insert_terminal("Whitespace1".to_string());
    assert_eq!(insert_unique(&mut table, "Whitespace"), Some(Terminal::named("Whitespace")));
    assert_eq!(insert_unique(&mut table, "Whitespace"), Some(Terminal::named("Whitespace2")));
    assert_eq!(table.get_terminal_id("Comment2"), Some(Terminal::named("Comment2")));
    assert_eq!(table.get_terminal_id("Comment3"), None);
}

#[test]
fn two_slashes_hold_the_empty_pattern() {
    assert_eq!(strip("//"), "");
    assert_eq!(strip("/a"), "/a");
    assert_eq!(strip("a/"), "a/");
}
