//! Conflicts of a grammar in words.

use crate::common::error::{Conflict, ConflictView};
use crate::common::grammar_rules::{
    GrammarRules, GrammarRulesView, GrammarSymbol, GrammarSymbolView, Rule, RuleView,
};
use crate::common::lalr_table::RawItem;
use crate::common::parse_tree::views;
use vstd::prelude::*;

verus! {

/// The name of a grammar symbol.
pub open spec fn symbol_name(symbol: GrammarSymbolView) -> Seq<char> {
    match symbol {
        GrammarSymbolView::Terminal(name) => name,
        GrammarSymbolView::Nonterminal(name) => name,
    }
}

/// The first `count` symbols of `rhs`, each after a space, with a dot
/// before the symbol at `position`.
pub open spec fn dotted(rhs: Seq<GrammarSymbolView>, position: usize, count: nat) -> Seq<char>
    decreases count,
{
    if count == 0 || count > rhs.len() {
        Seq::empty()
    } else if position == count - 1 {
        dotted(rhs, position, (count - 1) as nat) + " ."@ + " "@ + symbol_name(rhs[count - 1])
    } else {
        dotted(rhs, position, (count - 1) as nat) + " "@ + symbol_name(rhs[count - 1])
    }
}

/// The production `rule` with a dot at `position`: `lhs -> a . b`. A dot
/// behind the last symbol stands at the end.
pub open spec fn item_text(rule: RuleView, position: usize) -> Seq<char> {
    rule.non_terminal + " ->"@ + dotted(rule.rhs, position, rule.rhs.len()) + if position
        >= rule.rhs.len() {
        " ."@
    } else {
        ""@
    }
}

/// The production with the number `number` with a dot at `position`. The
/// number behind the productions of the grammar stands for the production
/// that is added for the start symbol.
pub open spec fn numbered_item(grammar: GrammarRulesView, number: usize, position: usize) -> Seq<
    char,
> {
    if number < grammar.rules.len() {
        item_text(grammar.rules[number as int], position)
    } else {
        "(start)"@
    }
}

/// The first `count` of `items`, each on a line of its own.
pub open spec fn item_lines(grammar: GrammarRulesView, items: Seq<RawItem>, count: nat) -> Seq<
    char,
>
    decreases count,
{
    if count == 0 || count > items.len() {
        Seq::empty()
    } else {
        item_lines(grammar, items, (count - 1) as nat) + "  "@ + numbered_item(
            grammar,
            items[count - 1].rule,
            items[count - 1].position,
        ) + "\n"@
    }
}

/// A conflict of `grammar` in words: the kind of the conflict and the
/// terminal at which it occurs, the productions that could be reduced by,
/// and the items of the state, among which those with the dot before the
/// terminal are the ones that shift.
pub open spec fn conflict_text(conflict: ConflictView, grammar: GrammarRulesView) -> Seq<char> {
    let kind = if conflict.other is Some {
        "Reduce/reduce conflict at "@
    } else {
        "Shift/reduce conflict at "@
    };
    let place = match conflict.token {
        Some(name) => name,
        None => "the end of the input"@,
    };
    let first = numbered_item(grammar, conflict.reduce, usize::MAX);
    let second = match conflict.other {
        Some(other) => " or by "@ + numbered_item(grammar, other, usize::MAX),
        None => ""@,
    };
    kind + place + ": reduce by "@ + first + second + " in the state\n"@ + item_lines(
        grammar,
        conflict.items,
        conflict.items.len(),
    )
}

/// Appends the production with a dot at `position`.
fn push_item(text: &mut String, rule: &Rule, position: usize)
    ensures
        final(text)@ == old(text)@ + item_text(rule@, position),
{
    text.append(rule.non_terminal.0.as_str());
    text.append(" ->");
    let ghost head = text@;
    let ghost rhs = views(rule.rhs@);
    let mut i: usize = 0;
    assert(text@ =~= head + dotted(rhs, position, 0));
    while i < rule.rhs.len()
        invariant
            i <= rule.rhs.len(),
            rhs == views(rule.rhs@),
            text@ == head + dotted(rhs, position, i as nat),
        decreases rule.rhs.len() - i,
    {
        if position == i {
            text.append(" .");
        }
        text.append(" ");
        match &rule.rhs[i] {
            GrammarSymbol::Terminal(t) => {
                text.append(t.0.as_str());
            },
            GrammarSymbol::Nonterminal(n) => {
                text.append(n.0.as_str());
            },
        }
        i += 1;
        assert(text@ =~= head + dotted(rhs, position, i as nat));
    }
    if position >= rule.rhs.len() {
        text.append(" .");
    }
    proof {
        reveal_strlit("");
        assert(""@ =~= Seq::<char>::empty());
        assert(text@ =~= old(text)@ + item_text(rule@, position));
    }
}

/// Appends the production with the number `number` with a dot at
/// `position`.
fn push_numbered(text: &mut String, grammar: &GrammarRules, number: usize, position: usize)
    ensures
        final(text)@ == old(text)@ + numbered_item(grammar@, number, position),
{
    if number < grammar.rules.len() {
        assert(grammar@.rules[number as int] == grammar.rules@[number as int]@);
        push_item(text, &grammar.rules[number], position);
    } else {
        text.append("(start)");
    }
}

impl Conflict {
    /// The conflict in words, for the grammar `grammar` in which it was
    /// found.
    pub fn describe(&self, grammar: &GrammarRules) -> (r: String)
        ensures
            r@ == conflict_text(self@, grammar@),
    {
        let mut text = if self.other.is_some() {
            String::from_str("Reduce/reduce conflict at ")
        } else {
            String::from_str("Shift/reduce conflict at ")
        };
        match &self.token {
            Some(name) => {
                text.append(name.as_str());
            },
            None => {
                text.append("the end of the input");
            },
        }
        text.append(": reduce by ");
        push_numbered(&mut text, grammar, self.reduce, usize::MAX);
        match self.other {
            Some(other) => {
                text.append(" or by ");
                push_numbered(&mut text, grammar, other, usize::MAX);
            },
            None => {},
        }
        text.append(" in the state\n");
        let ghost head = text@;
        let mut i: usize = 0;
        assert(text@ =~= head + item_lines(grammar@, self.items@, 0));
        while i < self.items.len()
            invariant
                i <= self.items.len(),
                text@ == head + item_lines(grammar@, self.items@, i as nat),
            decreases self.items.len() - i,
        {
            text.append("  ");
            push_numbered(&mut text, grammar, self.items[i].rule, self.items[i].position);
            text.append("\n");
            i += 1;
            assert(text@ =~= head + item_lines(grammar@, self.items@, i as nat));
        }
        proof {
            reveal_strlit("");
            assert(""@ =~= Seq::<char>::empty());
            assert(text@ =~= conflict_text(self@, grammar@));
        }
        text
    }
}

} // verus!
