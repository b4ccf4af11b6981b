use rustcc::common::action::{prune, splice, take_top};
use rustcc::common::parse_tree::{ParseError, ParseTreeNode, Span, Symbol};
use rustcc::common::symbol_table::{NonTerminal, Terminal};

fn leaf(kind: &str, text: &str) -> ParseTreeNode {
    ParseTreeNode::terminal(Terminal::named(kind), text.to_string(), Span::new(0, 0, 1, 1))
}

fn inner(symbol: &str, children: Vec<ParseTreeNode>) -> ParseTreeNode {
    ParseTreeNode::non_terminal(NonTerminal::named(symbol), children, Span::new(0, 0, 1, 1))
}

fn factor(atom: ParseTreeNode) -> ParseTreeNode {
    inner("Factor", vec![atom])
}

#[test]
fn span_holds_what_it_is_made_of() {
    let span = Span::new(3, 7, 2, 5);
    assert_eq!(span, Span { start: 3, end: 7, line: 2, column: 5 });
}

#[test]
fn nodes_hold_what_they_are_made_of() {
    let node = leaf("Identifier", "abc");
    assert_eq!(
        node,
        ParseTreeNode::Terminal {
            token: Terminal::named("Identifier"),
            lexeme: "abc".to_string(),
            span: Span::new(0, 0, 1, 1),
        }
    );
    let parent = inner("Term", vec![node.clone()]);
    assert_eq!(
        parent,
        ParseTreeNode::NonTerminal {
            symbol: NonTerminal::named("Term"),
            children: vec![node],
            span: Span::new(0, 0, 1, 1),
        }
    );
    assert_eq!(parent.clone(), parent);
}

#[test]
fn a_leaf_counts_as_empty() {
    assert!(leaf("Identifier", "abc").is_empty());
    assert!(inner("Term", Vec::new()).is_empty());
    assert!(!inner("Term", vec![leaf("Empty", "EPSILON")]).is_empty());
}

#[test]
fn lexeme_and_children_of_nodes() {
    let node = leaf("Identifier", "abc");
    assert_eq!(node.get_lexeme(), "abc");
    assert!(node.get_children().is_empty());
    assert!(node.clone().collect_children().is_empty());
    let parent = inner("Term", vec![node.clone(), leaf("Pipe", "|")]);
    assert_eq!(parent.get_lexeme(), "");
    assert_eq!(parent.get_children().len(), 2);
    assert_eq!(parent.get_children()[0], node);
    assert_eq!(parent.collect_children(), vec![node, leaf("Pipe", "|")]);
}

#[test]
fn nodes_are_told_by_their_symbols() {
    let node = leaf("Identifier", "abc");
    assert!(node.is_terminal(&Terminal::named("Identifier")));
    assert!(!node.is_terminal(&Terminal::named("Literal")));
    assert!(!node.is_non_terminal(&NonTerminal::named("Identifier")));
    let parent = inner("Term", Vec::new());
    assert!(parent.is_non_terminal(&NonTerminal::named("Term")));
    assert!(!parent.is_non_terminal(&NonTerminal::named("Factor")));
    assert!(!parent.is_terminal(&Terminal::named("Term")));
}

#[test]
fn leaves_become_atoms() {
    assert_eq!(leaf("Literal", "\"=\"").to_symbol(), Ok(Symbol::Literal("\"=\"".to_string())));
    assert_eq!(leaf("Regex", "/a+/").to_symbol(), Ok(Symbol::Regex("/a+/".to_string())));
    assert_eq!(leaf("Identifier", "x").to_symbol(), Ok(Symbol::Identifier("x".to_string())));
    assert_eq!(leaf("Empty", "EPSILON").to_symbol(), Ok(Symbol::Epsilon));
    assert_eq!(
        leaf("Pipe", "|").to_symbol(),
        Err("Unexpected terminal token: Pipe".to_string())
    );
    assert_eq!(
        inner("Group", Vec::new()).to_symbol(),
        Err("Cannot convert non-terminal symbol to symbol: Group".to_string())
    );
}

#[test]
fn atom_of_a_factor_skips_leading_white_space() {
    let plain = factor(leaf("Identifier", "a"));
    assert_eq!(plain.get_atom(), Ok(Symbol::Identifier("a".to_string())));
    let spaced = inner(
        "Factor",
        vec![
            inner("FactorRepetition", vec![leaf("Tilde", "~")]),
            leaf("Literal", "\"x\""),
            inner("FactorRepetition", vec![leaf("Tilde", "~")]),
        ],
    );
    assert_eq!(spaced.get_atom(), Ok(Symbol::Literal("\"x\"".to_string())));
}

#[test]
fn atom_of_a_factor_fails_where_there_is_none() {
    assert_eq!(
        leaf("Identifier", "a").get_atom(),
        Err("Collect atom call on non-factor node".to_string())
    );
    assert_eq!(inner("Factor", Vec::new()).get_atom(), Err("Factor has no children".to_string()));
    assert_eq!(
        inner("Factor", vec![inner("FactorRepetition", Vec::new())]).get_atom(),
        Err("Factor has no atom".to_string())
    );
    assert_eq!(
        factor(inner("Group", Vec::new())).get_atom(),
        Err("Cannot convert non-terminal symbol to symbol: Group".to_string())
    );
}

#[test]
fn factors_of_a_term() {
    let term = inner("Term", vec![factor(leaf("Identifier", "a")), factor(leaf("Regex", "/b/"))]);
    assert_eq!(
        term.get_factors(),
        Ok(vec![Symbol::Identifier("a".to_string()), Symbol::Regex("/b/".to_string())])
    );
    let empty = inner("Term", vec![leaf("Empty", "EPSILON")]);
    assert_eq!(empty.get_factors(), Ok(vec![Symbol::Epsilon]));
}

#[test]
fn factors_of_a_term_fail_on_other_nodes() {
    assert_eq!(
        inner("Expression", Vec::new()).get_factors(),
        Err("Collect factors call on non-term node".to_string())
    );
    assert_eq!(
        inner("Term", Vec::new()).get_factors(),
        Err("Unexpected children in term".to_string())
    );
    assert_eq!(
        inner("Term", vec![leaf("Pipe", "|")]).get_factors(),
        Err("Unexpected children in term".to_string())
    );
    assert_eq!(
        inner("Term", vec![factor(leaf("Identifier", "a")), leaf("Pipe", "|")]).get_factors(),
        Err("Collect atom call on non-factor node".to_string())
    );
}

#[test]
fn terms_of_an_expression() {
    let expression = inner(
        "Expression",
        vec![
            inner("Term", vec![factor(leaf("Identifier", "a")), factor(leaf("Identifier", "b"))]),
            leaf("Pipe", "|"),
            inner("Term", vec![leaf("Empty", "EPSILON")]),
        ],
    );
    assert_eq!(
        expression.get_terms(),
        Ok(vec![
            vec![Symbol::Identifier("a".to_string()), Symbol::Identifier("b".to_string())],
            vec![Symbol::Epsilon],
        ])
    );
}

#[test]
fn terms_of_an_expression_fail_on_other_nodes() {
    assert_eq!(
        inner("Term", Vec::new()).get_terms(),
        Err("Collect terms call on non-expression node".to_string())
    );
    assert_eq!(
        inner("Expression", Vec::new()).get_terms(),
        Err("Expression has no children".to_string())
    );
    assert_eq!(
        inner("Expression", vec![leaf("Comma", ",")]).get_terms(),
        Err("Unexpected child in expression".to_string())
    );
    assert_eq!(
        inner("Expression", vec![inner("Term", vec![factor(inner("Group", Vec::new()))])])
            .get_terms(),
        Err("Cannot convert non-terminal symbol to symbol: Group".to_string())
    );
}

#[test]
fn the_top_of_a_stack_is_taken_bottom_first() {
    let mut stack = vec![leaf("A", "a"), leaf("B", "b"), leaf("C", "c")];
    let top = take_top(&mut stack, 2);
    assert_eq!(top, vec![leaf("B", "b"), leaf("C", "c")]);
    assert_eq!(stack, vec![leaf("A", "a")]);
    let rest = take_top(&mut stack, 5);
    assert_eq!(rest, vec![leaf("A", "a")]);
    assert!(stack.is_empty());
    assert!(take_top(&mut stack, 0).is_empty());
}

#[test]
fn splicing_replaces_nodes_by_their_children() {
    let nodes = vec![
        inner("Term", vec![leaf("A", "a"), leaf("B", "b")]),
        leaf("C", "c"),
        inner("Factor", vec![leaf("D", "d")]),
        inner("Term", Vec::new()),
    ];
    assert_eq!(
        splice(nodes, &NonTerminal::named("Term")),
        vec![leaf("A", "a"), leaf("B", "b"), leaf("C", "c"), inner("Factor", vec![leaf("D", "d")])]
    );
}

#[test]
fn pruning_drops_white_space_that_is_not_there() {
    let nodes = vec![
        inner("FactorRepetition", Vec::new()),
        leaf("A", "a"),
        inner("FactorRepetition", vec![leaf("Tilde", "~")]),
        inner("Term", Vec::new()),
        inner("FactorRepetition", Vec::new()),
    ];
    assert_eq!(
        prune(nodes),
        vec![
            leaf("A", "a"),
            inner("FactorRepetition", vec![leaf("Tilde", "~")]),
            inner("Term", Vec::new()),
        ]
    );
}

#[test]
fn parse_errors_are_copied_whole() {
    let error = ParseError { message: "m".to_string(), span: Some(Span::new(1, 2, 3, 4)) };
    assert_eq!(error.clone(), error);
    assert_eq!(Symbol::Epsilon.clone(), Symbol::Epsilon);
    assert_eq!(Symbol::Regex("/x/".to_string()).clone(), Symbol::Regex("/x/".to_string()));
}

#[test]
fn parse_errors_are_shown_with_their_place() {
    let error = ParseError { message: "no".to_string(), span: Some(Span::new(30, 31, 12, 5)) };
    assert_eq!(error.to_string(), "Parse Error at input:12:5, no");
    let error = ParseError { message: "no".to_string(), span: None };
    assert_eq!(error.to_string(), "Parse Error: no");
}

#[test]
fn trees_are_shown_line_by_line() {
    let tree = inner(
        "Rule",
        vec![
            leaf("LeftIdentifier", "x"),
            inner("Expression", vec![inner("Term", Vec::new()), leaf("Literal", "\"l\"")]),
        ],
    );
    assert_eq!(
        tree.to_string(),
        "(Rule\n  (LeftIdentifier \"x\")\n  (Expression\n    (Term\n    )\n    (Literal \"\"l\"\")\n  )\n)\n"
    );
    assert_eq!(leaf("A", "a").to_string(), "(A \"a\")\n");
    let mut text = "> ".to_string();
    leaf("A", "a").render(&mut text, "..");
    assert_eq!(text, "> ..(A \"a\")\n");
}
