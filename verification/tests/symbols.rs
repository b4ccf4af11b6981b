use rustcc::common::name_map::{position_of, NameMap};
use rustcc::common::symbol_table::{NonTerminal, SymbolTable, Terminal};
use rustcc::generator::symbol_table::{symbol_table, table_of};

#[test]
fn reserved_terminals_have_their_names() {
    assert_eq!(Terminal::eof(), Terminal("<EOF>".to_string()));
    assert_eq!(Terminal::unrecognized(), Terminal("<UNRECOGNIZED>".to_string()));
    assert!(Terminal::eof().is_eof());
    assert!(!Terminal::eof().is_unrecognized());
    assert!(Terminal::unrecognized().is_unrecognized());
    assert!(!Terminal::named("Identifier").is_eof());
}

#[test]
fn symbols_compare_by_name() {
    assert!(Terminal::named("a").same(&Terminal::named("a")));
    assert!(!Terminal::named("a").same(&Terminal::named("b")));
    assert!(NonTerminal::named("a").same(&NonTerminal::named("a")));
    assert!(!NonTerminal::named("a").is_named("A"));
    assert_eq!(Terminal::named("x").clone(), Terminal::named("x"));
}

#[test]
fn name_map_keeps_the_last_value_of_a_key() {
    let mut map = NameMap::new();
    assert_eq!(map.len(), 0);
    map.insert("a".to_string(), "1".to_string());
    map.insert("b".to_string(), "2".to_string());
    map.insert("a".to_string(), "3".to_string());
    assert_eq!(map.len(), 2);
    assert_eq!(map.get("a"), Some(&"3".to_string()));
    assert_eq!(map.get("b"), Some(&"2".to_string()));
    assert_eq!(map.get("c"), None);
    assert!(map.contains_key("b"));
    assert!(!map.contains_key("B"));
}

#[test]
fn position_of_finds_the_first_occurrence() {
    let names = vec!["x".to_string(), "y".to_string(), "x".to_string()];
    assert_eq!(position_of(&names, "x"), Some(0));
    assert_eq!(position_of(&names, "y"), Some(1));
    assert_eq!(position_of(&names, "z"), None);
    assert_eq!(position_of(&Vec::new(), "x"), None);
}

#[test]
fn inserted_symbols_are_found_again() {
    let mut table = SymbolTable::new();
    assert_eq!(table.get_terminal_id("a"), None);
    let symbol = table.insert_terminal("a".to_string());
    assert_eq!(symbol, Terminal::named("a"));
    assert_eq!(table.insert_terminal("a".to_string()), Terminal::named("a"));
    assert_eq!(table.get_terminal_id("a"), Some(Terminal::named("a")));
    assert_eq!(table.get_terminal_name(&Terminal::named("a")), Some("a"));
    assert_eq!(table.get_non_terminal_id("a"), None);
    let symbol = table.insert_non_terminal("a".to_string());
    assert_eq!(symbol, NonTerminal::named("a"));
    assert_eq!(table.get_non_terminal_id("a"), Some(NonTerminal::named("a")));
    assert_eq!(table.get_non_terminal_name(&NonTerminal::named("a")), Some("a"));
    assert_eq!(table.get_non_terminal_name(&NonTerminal::named("b")), None);
}

#[test]
fn from_maps_shows_each_symbol_under_its_name() {
    let table = SymbolTable::from_maps(
        vec![
            ("plus".to_string(), Terminal::named("+")),
            ("minus".to_string(), Terminal::named("-")),
        ],
        vec![("sum".to_string(), NonTerminal::named("Sum"))],
    );
    assert_eq!(table.get_terminal_id("plus"), Some(Terminal::named("+")));
    assert_eq!(table.get_terminal_id("+"), None);
    assert_eq!(table.get_terminal_name(&Terminal::named("-")), Some("minus"));
    assert_eq!(table.get_non_terminal_id("sum"), Some(NonTerminal::named("Sum")));
    assert_eq!(table.get_non_terminal_name(&NonTerminal::named("Sum")), Some("sum"));
    assert_eq!(Terminal::named("+").to_string(&table), Some("plus"));
    assert_eq!(NonTerminal::named("Sum").to_string(&table), Some("sum"));
    assert_eq!(NonTerminal::named("sum").to_string(&table), None);
}

#[test]
fn from_maps_lets_the_later_pair_decide() {
    let table = SymbolTable::from_maps(
        vec![
            ("a".to_string(), Terminal::named("x")),
            ("b".to_string(), Terminal::named("x")),
            ("a".to_string(), Terminal::named("y")),
        ],
        Vec::new(),
    );
    assert_eq!(table.get_terminal_id("a"), Some(Terminal::named("y")));
    assert_eq!(table.get_terminal_name(&Terminal::named("x")), Some("b"));
}

#[test]
fn notation_symbols_are_all_there() {
    let table = symbol_table();
    for name in [
        "At", "Equal", "Pipe", "LeftBrace", "RightBrace", "LeftBracket", "RightBracket",
        "LeftParentheses", "RightParentheses", "Comma", "Tilde", "PositiveLookAhead",
        "NegativeLookAhead", "PositiveLookBehind", "NegativeLookBehind", "Empty", "Literal",
        "Regex", "Identifier", "LeftIdentifier", "Comment", "Whitespace",
    ] {
        assert_eq!(table.get_terminal_id(name), Some(Terminal::named(name)));
        assert_eq!(table.get_terminal_name(&Terminal::named(name)), Some(name));
    }
    for name in [
        "Grammar", "Directive", "Value", "List", "Rule", "Expression", "Term", "Factor",
        "FactorRepetition", "Atom", "Group", "Optional", "Repetition", "Lookahead",
        "LookaheadGroup",
    ] {
        assert_eq!(table.get_non_terminal_id(name), Some(NonTerminal::named(name)));
    }
    assert_eq!(table.get_non_terminal_id("GrammarRepetition"), None);
    assert_eq!(table.get_terminal_id("Grammar"), None);
}

#[test]
fn table_of_takes_each_name_once() {
    let table = table_of(&["a", "b", "a"], &["S"]);
    assert_eq!(table.get_terminal_id("a"), Some(Terminal::named("a")));
    assert_eq!(table.get_terminal_id("b"), Some(Terminal::named("b")));
    assert_eq!(table.get_non_terminal_id("S"), Some(NonTerminal::named("S")));
    assert_eq!(table.get_non_terminal_id("a"), None);
}
