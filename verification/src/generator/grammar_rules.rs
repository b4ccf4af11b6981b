//! The productions of the grammar notation, and how its table settles the
//! one conflict among them.

use crate::common::grammar_rules::{
    GrammarRules, GrammarRulesView, GrammarSymbol, GrammarSymbolView, Rule, RuleView,
};
use crate::common::parse_tree::views;
use crate::common::parse_table::ConflictPolicy;
use crate::common::symbol_table::{optional_name, NonTerminal, Terminal};
use vstd::prelude::*;

verus! {

/// The terminal named `name`, as a symbol of a right-hand side.
pub open spec fn terminal(name: Seq<char>) -> GrammarSymbolView {
    GrammarSymbolView::Terminal(name)
}

/// The non-terminal named `name`, as a symbol of a right-hand side.
pub open spec fn non_terminal(name: Seq<char>) -> GrammarSymbolView {
    GrammarSymbolView::Nonterminal(name)
}

/// The production of `lhs` with the right-hand side `rhs`.
pub open spec fn production(lhs: Seq<char>, rhs: Seq<GrammarSymbolView>) -> RuleView {
    RuleView { non_terminal: lhs, rhs }
}

/// The productions of the grammar notation. Repetitions are written out as
/// left recursion, and the identifier that a rule or a directive defines is
/// a terminal of its own, `LeftIdentifier`.
pub open spec fn notation_productions() -> Seq<RuleView> {
    seq![
        production("Grammar"@, seq![non_terminal("Grammar"@), non_terminal("Directive"@)]),
        production("Grammar"@, seq![non_terminal("Grammar"@), non_terminal("Rule"@)]),
        production("Grammar"@, seq![]),
        production(
            "Directive"@,
            seq![
                terminal("At"@),
                terminal("LeftIdentifier"@),
                terminal("Equal"@),
                non_terminal("Value"@),
            ],
        ),
        production("Value"@, seq![terminal("Literal"@)]),
        production("Value"@, seq![terminal("Regex"@)]),
        production("Value"@, seq![non_terminal("List"@)]),
        production(
            "List"@,
            seq![
                non_terminal("List"@),
                terminal("Comma"@),
                terminal("Identifier"@),
            ],
        ),
        production("List"@, seq![terminal("Identifier"@)]),
        production(
            "Rule"@,
            seq![
                terminal("LeftIdentifier"@),
                terminal("Equal"@),
                non_terminal("Expression"@),
            ],
        ),
        production(
            "Expression"@,
            seq![
                non_terminal("Expression"@),
                terminal("Pipe"@),
                non_terminal("Term"@),
            ],
        ),
        production("Expression"@, seq![non_terminal("Term"@)]),
        production("Term"@, seq![non_terminal("Term"@), non_terminal("Factor"@)]),
        production("Term"@, seq![non_terminal("Factor"@)]),
        production("Term"@, seq![terminal("Empty"@)]),
        production(
            "Factor"@,
            seq![
                non_terminal("FactorRepetition"@),
                non_terminal("Atom"@),
                non_terminal("FactorRepetition"@),
                non_terminal("Lookahead"@),
            ],
        ),
        production(
            "Factor"@,
            seq![
                non_terminal("FactorRepetition"@),
                non_terminal("Atom"@),
                non_terminal("FactorRepetition"@),
            ],
        ),
        production(
            "FactorRepetition"@,
            seq![
                non_terminal("FactorRepetition"@),
                terminal("Tilde"@),
            ],
        ),
        production("FactorRepetition"@, seq![]),
        production("Atom"@, seq![terminal("Literal"@)]),
        production("Atom"@, seq![terminal("Identifier"@)]),
        production("Atom"@, seq![terminal("Regex"@)]),
        production("Atom"@, seq![non_terminal("Group"@)]),
        production("Atom"@, seq![non_terminal("Optional"@)]),
        production("Atom"@, seq![non_terminal("Repetition"@)]),
        production(
            "Group"@,
            seq![
                terminal("LeftParentheses"@),
                non_terminal("Expression"@),
                terminal("RightParentheses"@),
            ],
        ),
        production(
            "Optional"@,
            seq![
                terminal("LeftBracket"@),
                non_terminal("Expression"@),
                terminal("RightBracket"@),
            ],
        ),
        production(
            "Repetition"@,
            seq![
                terminal("LeftBrace"@),
                non_terminal("Expression"@),
                terminal("RightBrace"@),
            ],
        ),
        production("Lookahead"@, seq![non_terminal("LookaheadGroup"@), non_terminal("Factor"@)]),
        production("LookaheadGroup"@, seq![terminal("PositiveLookAhead"@)]),
        production("LookaheadGroup"@, seq![terminal("NegativeLookAhead"@)]),
        production("LookaheadGroup"@, seq![terminal("PositiveLookBehind"@)]),
        production("LookaheadGroup"@, seq![terminal("NegativeLookBehind"@)]),
    ]
}

/// The grammar of the grammar notation.
pub open spec fn notation_grammar() -> GrammarRulesView {
    GrammarRulesView { start_symbol: "Grammar"@, rules: notation_productions() }
}

fn rule0(lhs: &str) -> (r: Rule)
    ensures
        r@ == production(lhs@, seq![]),
{
    let rhs: Vec<GrammarSymbol> = Vec::new();
    assert(views(rhs@) =~= seq![]);
    Rule::new(lhs, rhs)
}

fn rule1(lhs: &str, a: GrammarSymbol) -> (r: Rule)
    ensures
        r@ == production(lhs@, seq![a@]),
{
    let mut rhs: Vec<GrammarSymbol> = Vec::new();
    rhs.push(a);
    assert(views(rhs@) =~= seq![a@]);
    Rule::new(lhs, rhs)
}

fn rule2(lhs: &str, a: GrammarSymbol, b: GrammarSymbol) -> (r: Rule)
    ensures
        r@ == production(lhs@, seq![a@, b@]),
{
    let mut rhs: Vec<GrammarSymbol> = Vec::new();
    rhs.push(a);
    rhs.push(b);
    assert(views(rhs@) =~= seq![a@, b@]);
    Rule::new(lhs, rhs)
}

fn rule3(lhs: &str, a: GrammarSymbol, b: GrammarSymbol, c: GrammarSymbol) -> (r: Rule)
    ensures
        r@ == production(lhs@, seq![a@, b@, c@]),
{
    let mut rhs: Vec<GrammarSymbol> = Vec::new();
    rhs.push(a);
    rhs.push(b);
    rhs.push(c);
    assert(views(rhs@) =~= seq![a@, b@, c@]);
    Rule::new(lhs, rhs)
}

fn rule4(
    lhs: &str,
    a: GrammarSymbol,
    b: GrammarSymbol,
    c: GrammarSymbol,
    d: GrammarSymbol,
) -> (r: Rule)
    ensures
        r@ == production(lhs@, seq![a@, b@, c@, d@]),
{
    let mut rhs: Vec<GrammarSymbol> = Vec::new();
    rhs.push(a);
    rhs.push(b);
    rhs.push(c);
    rhs.push(d);
    assert(views(rhs@) =~= seq![a@, b@, c@, d@]);
    Rule::new(lhs, rhs)
}

/// The grammar of the grammar notation.
pub fn grammar_rules() -> (r: GrammarRules)
    ensures
        r@ == notation_grammar(),
{
    let mut rules: Vec<Rule> = Vec::new();
    rules.push(
        rule2(
            "Grammar",
            GrammarSymbol::non_terminal("Grammar"),
            GrammarSymbol::non_terminal("Directive"),
        ),
    );
    rules.push(
        rule2(
            "Grammar",
            GrammarSymbol::non_terminal("Grammar"),
            GrammarSymbol::non_terminal("Rule"),
        ),
    );
    rules.push(rule0("Grammar"));
    rules.push(
        rule4(
            "Directive",
            GrammarSymbol::terminal("At"),
            GrammarSymbol::terminal("LeftIdentifier"),
            GrammarSymbol::terminal("Equal"),
            GrammarSymbol::non_terminal("Value"),
        ),
    );
    rules.push(rule1("Value", GrammarSymbol::terminal("Literal")));
    rules.push(rule1("Value", GrammarSymbol::terminal("Regex")));
    rules.push(rule1("Value", GrammarSymbol::non_terminal("List")));
    rules.push(
        rule3(
            "List",
            GrammarSymbol::non_terminal("List"),
            GrammarSymbol::terminal("Comma"),
            GrammarSymbol::terminal("Identifier"),
        ),
    );
    rules.push(rule1("List", GrammarSymbol::terminal("Identifier")));
    rules.push(
        rule3(
            "Rule",
            GrammarSymbol::terminal("LeftIdentifier"),
            GrammarSymbol::terminal("Equal"),
            GrammarSymbol::non_terminal("Expression"),
        ),
    );
    rules.push(
        rule3(
            "Expression",
            GrammarSymbol::non_terminal("Expression"),
            GrammarSymbol::terminal("Pipe"),
            GrammarSymbol::non_terminal("Term"),
        ),
    );
    rules.push(rule1("Expression", GrammarSymbol::non_terminal("Term")));
    rules.push(
        rule2(
            "Term",
            GrammarSymbol::non_terminal("Term"),
            GrammarSymbol::non_terminal("Factor"),
        ),
    );
    rules.push(rule1("Term", GrammarSymbol::non_terminal("Factor")));
    rules.push(rule1("Term", GrammarSymbol::terminal("Empty")));
    rules.push(
        rule4(
            "Factor",
            GrammarSymbol::non_terminal("FactorRepetition"),
            GrammarSymbol::non_terminal("Atom"),
            GrammarSymbol::non_terminal("FactorRepetition"),
            GrammarSymbol::non_terminal("Lookahead"),
        ),
    );
    rules.push(
        rule3(
            "Factor",
            GrammarSymbol::non_terminal("FactorRepetition"),
            GrammarSymbol::non_terminal("Atom"),
            GrammarSymbol::non_terminal("FactorRepetition"),
        ),
    );
    rules.push(
        rule2(
            "FactorRepetition",
            GrammarSymbol::non_terminal("FactorRepetition"),
            GrammarSymbol::terminal("Tilde"),
        ),
    );
    rules.push(rule0("FactorRepetition"));
    rules.push(rule1("Atom", GrammarSymbol::terminal("Literal")));
    rules.push(rule1("Atom", GrammarSymbol::terminal("Identifier")));
    rules.push(rule1("Atom", GrammarSymbol::terminal("Regex")));
    rules.push(rule1("Atom", GrammarSymbol::non_terminal("Group")));
    rules.push(rule1("Atom", GrammarSymbol::non_terminal("Optional")));
    rules.push(rule1("Atom", GrammarSymbol::non_terminal("Repetition")));
    rules.push(
        rule3(
            "Group",
            GrammarSymbol::terminal("LeftParentheses"),
            GrammarSymbol::non_terminal("Expression"),
            GrammarSymbol::terminal("RightParentheses"),
        ),
    );
    rules.push(
        rule3(
            "Optional",
            GrammarSymbol::terminal("LeftBracket"),
            GrammarSymbol::non_terminal("Expression"),
            GrammarSymbol::terminal("RightBracket"),
        ),
    );
    rules.push(
        rule3(
            "Repetition",
            GrammarSymbol::terminal("LeftBrace"),
            GrammarSymbol::non_terminal("Expression"),
            GrammarSymbol::terminal("RightBrace"),
        ),
    );
    rules.push(
        rule2(
            "Lookahead",
            GrammarSymbol::non_terminal("LookaheadGroup"),
            GrammarSymbol::non_terminal("Factor"),
        ),
    );
    rules.push(rule1("LookaheadGroup", GrammarSymbol::terminal("PositiveLookAhead")));
    rules.push(rule1("LookaheadGroup", GrammarSymbol::terminal("NegativeLookAhead")));
    rules.push(rule1("LookaheadGroup", GrammarSymbol::terminal("PositiveLookBehind")));
    rules.push(rule1("LookaheadGroup", GrammarSymbol::terminal("NegativeLookBehind")));
    assert(views(rules@) =~= notation_productions());
    GrammarRules { start_symbol: NonTerminal::named("Grammar"), rules }
}

/// Whether `rhs` is a factor that may still take white space, and
/// `lookahead` is white space. The symbols are known under two sets of
/// names: those of the notation's own grammar, and those of a grammar text
/// that describes the notation.
pub open spec fn takes_more_whitespace(
    rhs: Seq<GrammarSymbolView>,
    lookahead: Option<Seq<char>>,
) -> bool {
    ||| rhs == seq![
        non_terminal("factor_repetition"@),
        non_terminal("atom"@),
        non_terminal("factor_repetition"@),
    ] && lookahead == Some("WHITESPACE"@)
    ||| rhs == seq![
        non_terminal("FactorRepetition"@),
        non_terminal("Atom"@),
        non_terminal("FactorRepetition"@),
    ] && lookahead == Some("Tilde"@)
}

fn is_non_terminal(symbol: &GrammarSymbol, name: &str) -> (b: bool)
    ensures
        b == (symbol@ == non_terminal(name@)),
{
    match symbol {
        GrammarSymbol::Terminal(_) => false,
        GrammarSymbol::Nonterminal(n) => n.is_named(name),
    }
}

/// Whether the table may reduce by a production with the right-hand side
/// `rhs` when the next token is `lookahead`, or the end of the input where
/// there is none. It may not where a factor can take more white space: the
/// parser then shifts, so that white space goes to the factor before it.
#[must_use]
pub fn reduce_on(rhs: &[GrammarSymbol], lookahead: Option<&Terminal>) -> (b: bool)
    ensures
        b == !takes_more_whitespace(views(rhs@), optional_name(lookahead)),
{
    if rhs.len() != 3 {
        proof {
            let symbols = views(rhs@);
            assert(symbols.len() != 3);
            assert(seq![
                non_terminal("factor_repetition"@),
                non_terminal("atom"@),
                non_terminal("factor_repetition"@),
            ].len() == 3);
            assert(seq![
                non_terminal("FactorRepetition"@),
                non_terminal("Atom"@),
                non_terminal("FactorRepetition"@),
            ].len() == 3);
        }
        return true;
    }
    let ghost symbols = views(rhs@);
    let greedy = match lookahead {
        None => false,
        Some(next) => {
            (is_non_terminal(&rhs[0], "factor_repetition") && is_non_terminal(&rhs[1], "atom")
                && is_non_terminal(&rhs[2], "factor_repetition") && next.is_named("WHITESPACE"))
                || (is_non_terminal(&rhs[0], "FactorRepetition") && is_non_terminal(
                &rhs[1],
                "Atom",
            ) && is_non_terminal(&rhs[2], "FactorRepetition") && next.is_named("Tilde"))
        },
    };
    proof {
        assert(symbols.len() == 3);
        assert(symbols =~= seq![symbols[0], symbols[1], symbols[2]]);
        if takes_more_whitespace(symbols, optional_name(lookahead)) {
            assert(greedy);
        }
        if greedy {
            assert(takes_more_whitespace(symbols, optional_name(lookahead)));
        }
    }
    !greedy
}

/// The priority of a production among those that may reduce at one place:
/// none is preferred.
#[must_use]
pub fn priority_of(_rhs: &[GrammarSymbol], _lookahead: Option<&Terminal>) -> (r: i32)
    ensures
        r == 0,
{
    0
}

/// How the table of the grammar notation settles its conflicts: white
/// space goes to the factor before it, and no production is preferred.
pub struct NotationPolicy;

impl ConflictPolicy for NotationPolicy {
    open spec fn may_reduce(
        &self,
        rhs: Seq<GrammarSymbolView>,
        lookahead: Option<Seq<char>>,
    ) -> bool {
        !takes_more_whitespace(rhs, lookahead)
    }

    open spec fn priority(&self, rhs: Seq<GrammarSymbolView>, lookahead: Option<Seq<char>>) -> i32 {
        0
    }

    fn reduce_on(&self, rhs: &[GrammarSymbol], lookahead: Option<&Terminal>) -> (b: bool) {
        reduce_on(rhs, lookahead)
    }

    fn priority_of(&self, rhs: &[GrammarSymbol], lookahead: Option<&Terminal>) -> (p: i32) {
        priority_of(rhs, lookahead)
    }
}

} // verus!
