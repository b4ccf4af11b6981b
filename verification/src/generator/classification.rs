//! Telling terminals from non-terminals by the alternatives of their rules,
//! and making the token rules of the terminals.

use crate::common::error::{ClassificationError, ClassificationErrorView};
use crate::common::parse_tree::{views, Symbol, SymbolView};
use crate::common::symbol_table::Terminal;
use crate::common::token_rules::{Rule, TokenRuleView};
use crate::generator::parse_tree::alternative_views;
use crate::generator::patterns::{
    alternation, combine_literals, combined, escape, escaped, literal_patterns, strip, stripped,
    unquote, unquoted,
};
use vstd::prelude::*;

verus! {

/// A rule of a grammar text: the name on its left-hand side and the
/// alternatives on its right-hand side. A rule is `lowered` where it
/// stands for an option or a repetition within another rule; it then
/// defines a non-terminal, whatever its atoms are.
#[derive(Debug)]
pub struct Production {
    pub lhs: String,
    pub alternatives: Vec<Vec<Symbol>>,
    pub lowered: bool,
}

/// A rule of a grammar text as a mathematical value.
pub ghost struct ProductionView {
    pub lhs: Seq<char>,
    pub alternatives: Seq<Seq<SymbolView>>,
    pub lowered: bool,
}

impl View for Production {
    type V = ProductionView;

    open spec fn view(&self) -> ProductionView {
        ProductionView {
            lhs: self.lhs@,
            alternatives: alternative_views(self.alternatives@),
            lowered: self.lowered,
        }
    }
}

/// The literals among `atoms`, without their quotes, in order.
pub open spec fn literals_in(atoms: Seq<SymbolView>) -> Seq<Seq<char>>
    decreases atoms.len(),
{
    if atoms.len() == 0 {
        Seq::empty()
    } else {
        match atoms.last() {
            SymbolView::Literal(text) => literals_in(atoms.drop_last()).push(unquoted(text)),
            _ => literals_in(atoms.drop_last()),
        }
    }
}

/// The regular expressions among `atoms`, in order.
pub open spec fn regexes_in(atoms: Seq<SymbolView>) -> Seq<Seq<char>>
    decreases atoms.len(),
{
    if atoms.len() == 0 {
        Seq::empty()
    } else {
        match atoms.last() {
            SymbolView::Regex(text) => regexes_in(atoms.drop_last()).push(text),
            _ => regexes_in(atoms.drop_last()),
        }
    }
}

/// The identifiers among `atoms`, in order.
pub open spec fn identifiers_in(atoms: Seq<SymbolView>) -> Seq<Seq<char>>
    decreases atoms.len(),
{
    if atoms.len() == 0 {
        Seq::empty()
    } else {
        match atoms.last() {
            SymbolView::Identifier(text) => identifiers_in(atoms.drop_last()).push(text),
            _ => identifiers_in(atoms.drop_last()),
        }
    }
}

/// The literals of all the alternatives, without their quotes, in order.
pub open spec fn literals_of(alternatives: Seq<Seq<SymbolView>>) -> Seq<Seq<char>>
    decreases alternatives.len(),
{
    if alternatives.len() == 0 {
        Seq::empty()
    } else {
        literals_of(alternatives.drop_last()) + literals_in(alternatives.last())
    }
}

/// The regular expressions of all the alternatives, in order.
pub open spec fn regexes_of(alternatives: Seq<Seq<SymbolView>>) -> Seq<Seq<char>>
    decreases alternatives.len(),
{
    if alternatives.len() == 0 {
        Seq::empty()
    } else {
        regexes_of(alternatives.drop_last()) + regexes_in(alternatives.last())
    }
}

/// The identifiers of all the alternatives, in order.
pub open spec fn identifiers_of(alternatives: Seq<Seq<SymbolView>>) -> Seq<Seq<char>>
    decreases alternatives.len(),
{
    if alternatives.len() == 0 {
        Seq::empty()
    } else {
        identifiers_of(alternatives.drop_last()) + identifiers_in(alternatives.last())
    }
}

/// Whether the rule defines a terminal: it is not lowered, and none of its
/// atoms is an identifier.
pub open spec fn defines_terminal(rule: ProductionView) -> bool {
    !rule.lowered && identifiers_of(rule.alternatives).len() == 0
}

/// What is wrong with the patterns of a rule, if anything: it holds two
/// regular expressions; or it defines a terminal by a regular expression
/// and by literals; or it defines a non-terminal and holds a regular
/// expression.
pub open spec fn classification_error(rule: ProductionView) -> Option<ClassificationErrorView> {
    if regexes_of(rule.alternatives).len() >= 2 {
        Some(ClassificationErrorView::MultipleRegex(rule.lhs))
    } else if regexes_of(rule.alternatives).len() == 0 {
        None
    } else if !defines_terminal(rule) {
        Some(ClassificationErrorView::RegexInNonTerminal(rule.lhs))
    } else if literals_of(rule.alternatives).len() > 0 {
        Some(ClassificationErrorView::MixedPatterns(rule.lhs))
    } else {
        None
    }
}

/// The token rules of the given literals: each is a terminal of its own,
/// named by its text and matched by its escaped text.
pub open spec fn literal_rules(literals: Seq<Seq<char>>) -> Seq<TokenRuleView> {
    Seq::new(
        literals.len(),
        |i: int| TokenRuleView { kind: literals[i], regex: escaped(literals[i]), skip: false },
    )
}

/// The token rule of the terminal that the rule defines, if it defines
/// one by patterns: the regular expression without its slashes, or else
/// the pattern that matches any of the literals.
pub open spec fn own_rule(rule: ProductionView) -> Seq<TokenRuleView> {
    if !defines_terminal(rule) {
        Seq::empty()
    } else if regexes_of(rule.alternatives).len() > 0 {
        seq![
            TokenRuleView {
                kind: rule.lhs,
                regex: stripped(regexes_of(rule.alternatives)[0]),
                skip: false,
            },
        ]
    } else if literals_of(rule.alternatives).len() > 0 {
        seq![
            TokenRuleView {
                kind: rule.lhs,
                regex: combined(literals_of(rule.alternatives)),
                skip: false,
            },
        ]
    } else {
        Seq::empty()
    }
}

/// The token rules that a rule gives: those of its literals, then that of
/// the terminal it defines.
pub open spec fn production_rules(rule: ProductionView) -> Seq<TokenRuleView> {
    literal_rules(literals_of(rule.alternatives)) + own_rule(rule)
}

/// The terminals that a rule gives: its literals, then the terminal it
/// defines.
pub open spec fn production_terminals(rule: ProductionView) -> Seq<Seq<char>> {
    if defines_terminal(rule) {
        literals_of(rule.alternatives).push(rule.lhs)
    } else {
        literals_of(rule.alternatives)
    }
}

/// The patterns of a rule, sorted by kind.
pub struct Patterns {
    pub literals: Vec<String>,
    pub regexes: Vec<String>,
    pub identifiers: Vec<String>,
}

/// Sorts the atoms of the alternatives by kind.
pub fn scan(alternatives: &Vec<Vec<Symbol>>) -> (r: Patterns)
    ensures
        views(r.literals@) == literals_of(alternative_views(alternatives@)),
        views(r.regexes@) == regexes_of(alternative_views(alternatives@)),
        views(r.identifiers@) == identifiers_of(alternative_views(alternatives@)),
{
    let ghost shown = alternative_views(alternatives@);
    let mut literals: Vec<String> = Vec::new();
    let mut regexes: Vec<String> = Vec::new();
    let mut identifiers: Vec<String> = Vec::new();
    let mut i: usize = 0;
    assert(views(literals@) =~= literals_of(shown.take(0)));
    assert(views(regexes@) =~= regexes_of(shown.take(0)));
    assert(views(identifiers@) =~= identifiers_of(shown.take(0)));
    while i < alternatives.len()
        invariant
            i <= alternatives.len(),
            shown == alternative_views(alternatives@),
            views(literals@) == literals_of(shown.take(i as int)),
            views(regexes@) == regexes_of(shown.take(i as int)),
            views(identifiers@) == identifiers_of(shown.take(i as int)),
        decreases alternatives.len() - i,
    {
        let atoms = &alternatives[i];
        let ghost held = views(atoms@);
        let ghost done = shown.take(i as int);
        let mut j: usize = 0;
        assert(views(literals@) =~= literals_of(done) + literals_in(held.take(0)));
        assert(views(regexes@) =~= regexes_of(done) + regexes_in(held.take(0)));
        assert(views(identifiers@) =~= identifiers_of(done) + identifiers_in(held.take(0)));
        while j < atoms.len()
            invariant
                j <= atoms.len(),
                held == views(atoms@),
                views(literals@) == literals_of(done) + literals_in(held.take(j as int)),
                views(regexes@) == regexes_of(done) + regexes_in(held.take(j as int)),
                views(identifiers@) == identifiers_of(done) + identifiers_in(held.take(j as int)),
            decreases atoms.len() - j,
        {
            proof {
                assert(held.take(j + 1).drop_last() =~= held.take(j as int));
                assert(held.take(j + 1).last() == atoms@[j as int]@);
            }
            let ghost l = views(literals@);
            let ghost r = views(regexes@);
            let ghost d = views(identifiers@);
            match &atoms[j] {
                Symbol::Literal(text) => {
                    let name = String::from_str(unquote(text.as_str()));
                    literals.push(name);
                    assert(views(literals@) =~= l.push(unquoted(text@)));
                },
                Symbol::Regex(text) => {
                    regexes.push(text.clone());
                    assert(views(regexes@) =~= r.push(text@));
                },
                Symbol::Identifier(text) => {
                    identifiers.push(text.clone());
                    assert(views(identifiers@) =~= d.push(text@));
                },
                Symbol::Epsilon => {},
            }
            assert(views(literals@) =~= literals_of(done) + literals_in(held.take(j + 1)));
            assert(views(regexes@) =~= regexes_of(done) + regexes_in(held.take(j + 1)));
            assert(views(identifiers@) =~= identifiers_of(done) + identifiers_in(held.take(j + 1)));
            j += 1;
        }
        proof {
            assert(held.take(j as int) =~= held);
            assert(shown.take(i + 1).drop_last() =~= done);
            assert(shown.take(i + 1).last() == held);
        }
        i += 1;
    }
    assert(shown.take(i as int) =~= shown);
    Patterns { literals, regexes, identifiers }
}

/// Whether `patterns` holds the atoms of `alternatives`, sorted by kind.
pub open spec fn sorted_from(patterns: &Patterns, alternatives: Seq<Seq<SymbolView>>) -> bool {
    &&& views(patterns.literals@) == literals_of(alternatives)
    &&& views(patterns.regexes@) == regexes_of(alternatives)
    &&& views(patterns.identifiers@) == identifiers_of(alternatives)
}

/// What a result holds: the error by its view.
pub open spec fn classification_result(r: Result<(), ClassificationError>) -> Option<
    ClassificationErrorView,
> {
    match r {
        Ok(_) => None,
        Err(e) => Some(e@),
    }
}

/// Tells what is wrong with the patterns of `rule`, if anything.
/// `patterns` holds the atoms of the rule, sorted by kind.
pub fn check_patterns(rule: &Production, patterns: &Patterns) -> (r: Result<
    (),
    ClassificationError,
>)
    requires
        sorted_from(patterns, rule@.alternatives),
    ensures
        classification_result(r) == classification_error(rule@),
{
    if patterns.regexes.len() >= 2 {
        Err(ClassificationError::MultipleRegex(rule.lhs.clone()))
    } else if patterns.regexes.len() == 0 {
        Ok(())
    } else if rule.lowered || patterns.identifiers.len() > 0 {
        Err(ClassificationError::RegexInNonTerminal(rule.lhs.clone()))
    } else if patterns.literals.len() > 0 {
        Err(ClassificationError::MixedPatterns(rule.lhs.clone()))
    } else {
        Ok(())
    }
}

/// Appends to `rules` the token rules that `rule` gives. `patterns` holds
/// the atoms of the rule, sorted by kind.
pub fn push_token_rules(rules: &mut Vec<Rule>, rule: &Production, patterns: &Patterns)
    requires
        sorted_from(patterns, rule@.alternatives),
    ensures
        views(final(rules)@) == views(old(rules)@) + production_rules(rule@),
{
    let ghost before = views(rules@);
    let ghost literals = views(patterns.literals@);
    let mut i: usize = 0;
    assert(views(rules@) =~= before + literal_rules(literals).take(0));
    while i < patterns.literals.len()
        invariant
            i <= patterns.literals.len(),
            literals == views(patterns.literals@),
            views(rules@) == before + literal_rules(literals).take(i as int),
        decreases patterns.literals.len() - i,
    {
        let literal = &patterns.literals[i];
        let ghost held = views(rules@);
        rules.push(
            Rule { kind: Terminal(literal.clone()), regex: escape(literal.as_str()), skip: false },
        );
        assert(views(rules@) =~= held.push(literal_rules(literals)[i as int]));
        assert(views(rules@) =~= before + literal_rules(literals).take(i + 1));
        i += 1;
    }
    assert(literal_rules(literals).take(i as int) =~= literal_rules(literals));
    let ghost held = views(rules@);
    if !rule.lowered && patterns.identifiers.len() == 0 {
        if patterns.regexes.len() > 0 {
            let pattern = String::from_str(strip(patterns.regexes[0].as_str()));
            rules.push(Rule { kind: Terminal(rule.lhs.clone()), regex: pattern, skip: false });
            assert(views(rules@) =~= held.push(
                TokenRuleView {
                    kind: rule.lhs@,
                    regex: stripped(views(patterns.regexes@)[0]),
                    skip: false,
                },
            ));
        } else if patterns.literals.len() > 0 {
            let pattern = combine_literals(patterns.literals.as_slice());
            rules.push(Rule { kind: Terminal(rule.lhs.clone()), regex: pattern, skip: false });
            assert(views(rules@) =~= held.push(
                TokenRuleView { kind: rule.lhs@, regex: combined(literals), skip: false },
            ));
        }
    }
    assert(views(rules@) =~= before + production_rules(rule@));
}

/// A rule that holds one regular expression and nothing else defines a
/// terminal, and the pattern of its token rule is the expression without
/// the slashes around it.
pub proof fn lemma_single_regex(lhs: Seq<char>, pattern: Seq<char>)
    ensures
        ({
            let rule = ProductionView {
                lhs,
                alternatives: seq![seq![SymbolView::Regex(seq!['/'] + pattern + seq!['/'])]],
                lowered: false,
            };
            &&& defines_terminal(rule)
            &&& classification_error(rule) is None
            &&& own_rule(rule) == seq![TokenRuleView { kind: lhs, regex: pattern, skip: false }]
            &&& production_rules(rule) == seq![
                TokenRuleView { kind: lhs, regex: pattern, skip: false },
            ]
        }),
{
    let text = seq!['/'] + pattern + seq!['/'];
    let atoms = seq![SymbolView::Regex(text)];
    let alternatives = seq![atoms];
    let rule = ProductionView { lhs, alternatives, lowered: false };
    assert(atoms.drop_last() =~= Seq::<SymbolView>::empty());
    assert(alternatives.drop_last() =~= Seq::<Seq<SymbolView>>::empty());
    assert(regexes_in(atoms.drop_last()) =~= Seq::<Seq<char>>::empty());
    assert(literals_in(atoms.drop_last()) =~= Seq::<Seq<char>>::empty());
    assert(identifiers_in(atoms.drop_last()) =~= Seq::<Seq<char>>::empty());
    assert(regexes_in(atoms) =~= seq![text]);
    assert(literals_in(atoms) =~= Seq::<Seq<char>>::empty());
    assert(identifiers_in(atoms) =~= Seq::<Seq<char>>::empty());
    assert(regexes_of(alternatives.drop_last()) =~= Seq::<Seq<char>>::empty());
    assert(literals_of(alternatives.drop_last()) =~= Seq::<Seq<char>>::empty());
    assert(identifiers_of(alternatives.drop_last()) =~= Seq::<Seq<char>>::empty());
    assert(regexes_of(alternatives) =~= seq![text]);
    assert(literals_of(alternatives) =~= Seq::<Seq<char>>::empty());
    assert(identifiers_of(alternatives) =~= Seq::<Seq<char>>::empty());
    assert(stripped(text) =~= pattern);
    assert(literal_rules(literals_of(alternatives)) =~= Seq::<TokenRuleView>::empty());
    assert(own_rule(rule) =~= seq![TokenRuleView { kind: lhs, regex: pattern, skip: false }]);
    assert(production_rules(rule) =~= seq![
        TokenRuleView { kind: lhs, regex: pattern, skip: false },
    ]);
}

/// The literal that reads `text` in double quotes.
pub open spec fn quoted(text: Seq<char>) -> SymbolView {
    SymbolView::Literal(seq!['"'] + text + seq!['"'])
}

/// A rule whose alternatives are three literals defines a terminal. Its
/// literals are the three texts, and the pattern of its token rule is the
/// alternation of the escaped texts of the literals, in parentheses. The
/// texts are not in quotes themselves.
pub proof fn lemma_literal_alternatives(lhs: Seq<char>, a: Seq<char>, b: Seq<char>, c: Seq<char>)
    requires
        unquoted(a) == a,
        unquoted(b) == b,
        unquoted(c) == c,
    ensures
        ({
            let rule = ProductionView {
                lhs,
                alternatives: seq![seq![quoted(a)], seq![quoted(b)], seq![quoted(c)]],
                lowered: false,
            };
            &&& defines_terminal(rule)
            &&& classification_error(rule) is None
            &&& literals_of(rule.alternatives) == seq![a, b, c]
            &&& own_rule(rule) == seq![
                TokenRuleView {
                    kind: lhs,
                    regex: seq!['('] + escaped(a) + seq!['|'] + escaped(b) + seq!['|'] + escaped(
                        c,
                    ) + seq![')'],
                    skip: false,
                },
            ]
        }),
{
    let alternatives = seq![seq![quoted(a)], seq![quoted(b)], seq![quoted(c)]];
    let rule = ProductionView { lhs, alternatives, lowered: false };
    lemma_one_literal(a);
    lemma_one_literal(b);
    lemma_one_literal(c);
    let two = alternatives.drop_last();
    let one = two.drop_last();
    assert(two =~= seq![seq![quoted(a)], seq![quoted(b)]]);
    assert(one =~= seq![seq![quoted(a)]]);
    assert(one.drop_last() =~= Seq::<Seq<SymbolView>>::empty());
    assert(literals_of(one.drop_last()) =~= Seq::<Seq<char>>::empty());
    assert(regexes_of(one.drop_last()) =~= Seq::<Seq<char>>::empty());
    assert(identifiers_of(one.drop_last()) =~= Seq::<Seq<char>>::empty());
    assert(one.last() == seq![quoted(a)]);
    assert(two.last() == seq![quoted(b)]);
    assert(alternatives.last() == seq![quoted(c)]);
    assert(literals_of(one) =~= seq![a]);
    assert(regexes_of(one) =~= Seq::<Seq<char>>::empty());
    assert(identifiers_of(one) =~= Seq::<Seq<char>>::empty());
    assert(literals_of(two) =~= seq![a, b]);
    assert(regexes_of(two) =~= Seq::<Seq<char>>::empty());
    assert(identifiers_of(two) =~= Seq::<Seq<char>>::empty());
    let literals = literals_of(alternatives);
    assert(literals =~= seq![a, b, c]);
    assert(regexes_of(alternatives) =~= Seq::<Seq<char>>::empty());
    assert(identifiers_of(alternatives) =~= Seq::<Seq<char>>::empty());
    let patterns = literal_patterns(literals);
    assert(patterns =~= seq![escaped(a), escaped(b), escaped(c)]);
    assert(patterns.drop_last() =~= seq![escaped(a), escaped(b)]);
    assert(patterns.drop_last().drop_last() =~= seq![escaped(a)]);
    assert(alternation(patterns.drop_last().drop_last()) == escaped(a));
    assert(alternation(patterns.drop_last()) =~= escaped(a)
        + seq!['|'] + escaped(b));
    assert(alternation(patterns) =~= escaped(a) + seq!['|']
        + escaped(b) + seq!['|'] + escaped(c));
    assert(combined(literals) =~= seq!['('] + escaped(a) + seq!['|'] + escaped(b) + seq!['|']
        + escaped(c) + seq![')']);
}

/// What a quoted literal alone holds: itself, without its quotes.
pub proof fn lemma_one_literal(text: Seq<char>)
    ensures
        literals_in(seq![quoted(text)]) == seq![text],
        regexes_in(seq![quoted(text)]) == Seq::<Seq<char>>::empty(),
        identifiers_in(seq![quoted(text)]) == Seq::<Seq<char>>::empty(),
{
    let atoms = seq![quoted(text)];
    let inner = seq!['"'] + text + seq!['"'];
    assert(atoms.drop_last() =~= Seq::<SymbolView>::empty());
    assert(unquoted(inner) =~= text);
    assert(literals_in(atoms.drop_last()) =~= Seq::<Seq<char>>::empty());
    assert(regexes_in(atoms.drop_last()) =~= Seq::<Seq<char>>::empty());
    assert(identifiers_in(atoms.drop_last()) =~= Seq::<Seq<char>>::empty());
    assert(atoms.last() == quoted(text));
    assert(literals_in(atoms) =~= seq![text]);
    assert(regexes_in(atoms) =~= Seq::<Seq<char>>::empty());
    assert(identifiers_in(atoms) =~= Seq::<Seq<char>>::empty());
}

} // verus!
