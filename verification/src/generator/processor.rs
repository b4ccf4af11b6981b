//! Telling the identifier that a rule defines from the identifiers that a
//! rule uses: an identifier right before an equals sign is retagged.

use crate::common::grammar_rules::{
    GrammarRules, GrammarRulesView, GrammarSymbol, GrammarSymbolView, Rule, RuleView,
};
use crate::common::parse_tree::views;
use crate::common::symbol_table::Terminal;
use crate::compiler::lexer::{LocatedToken, LocatedTokenView, TokenView};
use vstd::prelude::*;

verus! {

/// The terminal of a token of the terminal `kind` when the token after it
/// is of the terminal `next`, or there is none: an identifier before an
/// equals sign is a left identifier, under the names of the notation's own
/// grammar and under those of a grammar text that describes the notation.
pub open spec fn retagged(kind: Seq<char>, next: Option<Seq<char>>) -> Seq<char> {
    if next == Some("Equal"@) && kind == "Identifier"@ {
        "LeftIdentifier"@
    } else if next == Some("="@) && kind == "IDENTIFIER"@ {
        "LEFT_IDENTIFIER"@
    } else {
        kind
    }
}

/// `token` as it leaves the processor when the token after it is of the
/// terminal `next`.
pub open spec fn retagged_token(token: LocatedTokenView, next: Option<Seq<char>>) -> LocatedTokenView {
    LocatedTokenView {
        token: TokenView {
            kind: retagged(token.token.kind, next),
            text: token.token.text,
            start: token.token.start,
            end: token.token.end,
        },
        span: token.span,
    }
}

/// The terminal of the token at the place `i` of `tokens`, if there is one.
pub open spec fn kind_at(tokens: Seq<LocatedTokenView>, i: int) -> Option<Seq<char>> {
    if 0 <= i < tokens.len() {
        Some(tokens[i].token.kind)
    } else {
        None
    }
}

/// The tokens as they leave the processor: as many as came, each retagged
/// by the token after it.
pub open spec fn processed(tokens: Seq<LocatedTokenView>) -> Seq<LocatedTokenView> {
    Seq::new(tokens.len(), |i: int| retagged_token(tokens[i], kind_at(tokens, i + 1)))
}

/// The terminal of a token that may be there.
pub open spec fn kind_of(token: Option<LocatedToken>) -> Option<Seq<char>> {
    match token {
        Some(t) => Some(t@.token.kind),
        None => None,
    }
}

/// The view of a token that may be there.
pub open spec fn shown(token: Option<LocatedToken>) -> Option<LocatedTokenView> {
    match token {
        Some(t) => Some(t@),
        None => None,
    }
}

/// A filter between a lexer and a parser that looks one token ahead.
pub struct Processor {
    previous_token: Option<LocatedToken>,
}

impl Processor {
    /// The token that the processor holds back until it has seen the next.
    pub closed spec fn held(&self) -> Option<LocatedTokenView> {
        shown(self.previous_token)
    }

    /// The processor that holds the first token of a stream.
    pub fn start(first: Option<LocatedToken>) -> (r: Self)
        ensures
            r.held() == shown(first),
    {
        Processor { previous_token: first }
    }

    /// Takes the next token of the stream, or `None` at its end, and gives
    /// the token before it, retagged. At the end of the stream the
    /// processor gives the last token as it is, and `None` from then on.
    pub fn advance(&mut self, current: Option<LocatedToken>) -> (r: Option<LocatedToken>)
        ensures
            final(self).held() == shown(current),
            shown(r) == match old(self).held() {
                Some(previous) => Some(retagged_token(previous, kind_of(current))),
                None => None,
            },
    {
        let previous = self.previous_token.take();
        let emitted = match previous {
            None => None,
            Some(mut token) => {
                if let Some(next) = &current {
                    if next.token.kind.is_named("Equal") && token.token.kind.is_named("Identifier") {
                        token.token.kind = Terminal::named("LeftIdentifier");
                    } else if next.token.kind.is_named("=") && token.token.kind.is_named(
                        "IDENTIFIER",
                    ) {
                        token.token.kind = Terminal::named("LEFT_IDENTIFIER");
                    }
                }
                Some(token)
            },
        };
        self.previous_token = current;
        emitted
    }

    /// Retags the tokens of a whole stream.
    pub fn process(tokens: Vec<LocatedToken>) -> (r: Vec<LocatedToken>)
        ensures
            views(r@) == processed(views(tokens@)),
    {
        let ghost all = views(tokens@);
        let mut result: Vec<LocatedToken> = Vec::new();
        if tokens.len() == 0 {
            assert(views(result@) =~= processed(all));
            return result;
        }
        let mut processor = Processor::start(Some(tokens[0].clone()));
        let mut i: usize = 1;
        while i < tokens.len()
            invariant
                1 <= i <= tokens.len(),
                all == views(tokens@),
                result.len() == i - 1,
                processor.held() == Some(all[i - 1]),
                forall|k: int| 0 <= k < i - 1 ==> (#[trigger] result@[k])@ == processed(all)[k],
            decreases tokens.len() - i,
        {
            let emitted = processor.advance(Some(tokens[i].clone()));
            match emitted {
                Some(token) => {
                    result.push(token);
                },
                None => {
                    assert(false);
                },
            }
            i += 1;
        }
        match processor.advance(None) {
            Some(token) => {
                result.push(token);
            },
            None => {
                assert(false);
            },
        }
        assert(views(result@) =~= processed(all));
        result
    }
}


/// The production of a directive: the non-terminal `lhs` gives the sign
/// `at`, an identifier, the sign `equal` and a value.
pub open spec fn directive_of(
    lhs: Seq<char>,
    at: Seq<char>,
    identifier: Seq<char>,
    equal: Seq<char>,
    value: Seq<char>,
) -> RuleView {
    RuleView {
        non_terminal: lhs,
        rhs: seq![
            GrammarSymbolView::Terminal(at),
            GrammarSymbolView::Terminal(identifier),
            GrammarSymbolView::Terminal(equal),
            GrammarSymbolView::Nonterminal(value),
        ],
    }
}

/// The production of a rule: the non-terminal `lhs` gives an identifier,
/// the sign `equal` and an expression.
pub open spec fn rule_of(
    lhs: Seq<char>,
    identifier: Seq<char>,
    equal: Seq<char>,
    expression: Seq<char>,
) -> RuleView {
    RuleView {
        non_terminal: lhs,
        rhs: seq![
            GrammarSymbolView::Terminal(identifier),
            GrammarSymbolView::Terminal(equal),
            GrammarSymbolView::Nonterminal(expression),
        ],
    }
}

/// `rule` with the left identifier in its place. Only the production of a
/// directive and the production of a rule change, each told by its whole
/// shape, under the names of the notation's own grammar and under those of
/// a grammar text that describes the notation: the identifier that they
/// define becomes a left identifier. Every other production stays.
pub open spec fn with_left_identifier(rule: RuleView) -> RuleView {
    if rule == directive_of("directive"@, "@"@, "IDENTIFIER"@, "="@, "value"@) {
        directive_of("directive"@, "@"@, "LEFT_IDENTIFIER"@, "="@, "value"@)
    } else if rule == rule_of("rule"@, "IDENTIFIER"@, "="@, "expression"@) {
        rule_of("rule"@, "LEFT_IDENTIFIER"@, "="@, "expression"@)
    } else if rule == directive_of("Directive"@, "At"@, "Identifier"@, "Equal"@, "Value"@) {
        directive_of("Directive"@, "At"@, "LeftIdentifier"@, "Equal"@, "Value"@)
    } else if rule == rule_of("Rule"@, "Identifier"@, "Equal"@, "Expression"@) {
        rule_of("Rule"@, "LeftIdentifier"@, "Equal"@, "Expression"@)
    } else {
        rule
    }
}

/// `grammar` with the left identifier in its place in each production.
pub open spec fn with_left_identifiers(grammar: GrammarRulesView) -> GrammarRulesView {
    GrammarRulesView {
        start_symbol: grammar.start_symbol,
        rules: Seq::new(grammar.rules.len(), |i: int| with_left_identifier(grammar.rules[i])),
    }
}

/// Whether the symbol is the terminal named `name`.
fn is_terminal(symbol: &GrammarSymbol, name: &str) -> (b: bool)
    ensures
        b == (symbol@ == GrammarSymbolView::Terminal(name@)),
{
    match symbol {
        GrammarSymbol::Terminal(t) => t.is_named(name),
        GrammarSymbol::Nonterminal(_) => false,
    }
}

/// Whether the symbol is the non-terminal named `name`.
fn is_non_terminal(symbol: &GrammarSymbol, name: &str) -> (b: bool)
    ensures
        b == (symbol@ == GrammarSymbolView::Nonterminal(name@)),
{
    match symbol {
        GrammarSymbol::Terminal(_) => false,
        GrammarSymbol::Nonterminal(n) => n.is_named(name),
    }
}

/// Whether the production is that of a directive under the given names.
fn is_directive(rule: &Rule, lhs: &str, at: &str, identifier: &str, equal: &str, value: &str) -> (b:
    bool)
    ensures
        b == (rule@ == directive_of(lhs@, at@, identifier@, equal@, value@)),
{
    let found = rule.non_terminal.is_named(lhs) && rule.rhs.len() == 4 && is_terminal(
        &rule.rhs[0],
        at,
    ) && is_terminal(&rule.rhs[1], identifier) && is_terminal(&rule.rhs[2], equal)
        && is_non_terminal(&rule.rhs[3], value);
    proof {
        let wanted = directive_of(lhs@, at@, identifier@, equal@, value@);
        if found {
            assert(rule@.rhs =~= wanted.rhs);
        } else if rule@ == wanted {
            assert(rule@.rhs.len() == 4);
            assert(rule@.rhs[0] == wanted.rhs[0]);
            assert(rule@.rhs[1] == wanted.rhs[1]);
            assert(rule@.rhs[2] == wanted.rhs[2]);
            assert(rule@.rhs[3] == wanted.rhs[3]);
        }
    }
    found
}

/// Whether the production is that of a rule under the given names.
fn is_rule(rule: &Rule, lhs: &str, identifier: &str, equal: &str, expression: &str) -> (b: bool)
    ensures
        b == (rule@ == rule_of(lhs@, identifier@, equal@, expression@)),
{
    let found = rule.non_terminal.is_named(lhs) && rule.rhs.len() == 3 && is_terminal(
        &rule.rhs[0],
        identifier,
    ) && is_terminal(&rule.rhs[1], equal) && is_non_terminal(&rule.rhs[2], expression);
    proof {
        let wanted = rule_of(lhs@, identifier@, equal@, expression@);
        if found {
            assert(rule@.rhs =~= wanted.rhs);
        } else if rule@ == wanted {
            assert(rule@.rhs.len() == 3);
            assert(rule@.rhs[0] == wanted.rhs[0]);
            assert(rule@.rhs[1] == wanted.rhs[1]);
            assert(rule@.rhs[2] == wanted.rhs[2]);
        }
    }
    found
}

/// The production of a directive under the given names.
fn directive(lhs: &str, at: &str, identifier: &str, equal: &str, value: &str) -> (r: Rule)
    ensures
        r@ == directive_of(lhs@, at@, identifier@, equal@, value@),
{
    let mut rhs: Vec<GrammarSymbol> = Vec::new();
    rhs.push(GrammarSymbol::terminal(at));
    rhs.push(GrammarSymbol::terminal(identifier));
    rhs.push(GrammarSymbol::terminal(equal));
    rhs.push(GrammarSymbol::non_terminal(value));
    assert(views(rhs@) =~= directive_of(lhs@, at@, identifier@, equal@, value@).rhs);
    Rule::new(lhs, rhs)
}

/// The production of a rule under the given names.
fn rule(lhs: &str, identifier: &str, equal: &str, expression: &str) -> (r: Rule)
    ensures
        r@ == rule_of(lhs@, identifier@, equal@, expression@),
{
    let mut rhs: Vec<GrammarSymbol> = Vec::new();
    rhs.push(GrammarSymbol::terminal(identifier));
    rhs.push(GrammarSymbol::terminal(equal));
    rhs.push(GrammarSymbol::non_terminal(expression));
    assert(views(rhs@) =~= rule_of(lhs@, identifier@, equal@, expression@).rhs);
    Rule::new(lhs, rhs)
}

/// Puts the left identifier in its place in the production.
fn mark_rule(given: &Rule) -> (r: Rule)
    ensures
        r@ == with_left_identifier(given@),
{
    if is_directive(given, "directive", "@", "IDENTIFIER", "=", "value") {
        directive("directive", "@", "LEFT_IDENTIFIER", "=", "value")
    } else if is_rule(given, "rule", "IDENTIFIER", "=", "expression") {
        rule("rule", "LEFT_IDENTIFIER", "=", "expression")
    } else if is_directive(given, "Directive", "At", "Identifier", "Equal", "Value") {
        directive("Directive", "At", "LeftIdentifier", "Equal", "Value")
    } else if is_rule(given, "Rule", "Identifier", "Equal", "Expression") {
        rule("Rule", "LeftIdentifier", "Equal", "Expression")
    } else {
        given.clone()
    }
}

/// The grammar with the left identifier in its place: in the productions
/// of rules and directives the identifier that is defined becomes the
/// terminal that the processor gives to an identifier before an equals
/// sign.
pub fn mark_left_identifiers(grammar: &GrammarRules) -> (r: GrammarRules)
    ensures
        r@ == with_left_identifiers(grammar@),
{
    let mut rules: Vec<Rule> = Vec::new();
    let mut i: usize = 0;
    while i < grammar.rules.len()
        invariant
            i <= grammar.rules.len(),
            rules.len() == i,
            forall|k: int|
                0 <= k < i ==> (#[trigger] rules@[k])@ == with_left_identifier(grammar.rules@[k]@),
        decreases grammar.rules.len() - i,
    {
        rules.push(mark_rule(&grammar.rules[i]));
        i += 1;
    }
    assert(views(rules@) =~= with_left_identifiers(grammar@).rules);
    GrammarRules { start_symbol: grammar.start_symbol.clone(), rules }
}

} // verus!
