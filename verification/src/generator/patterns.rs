//! The texts of a grammar's atoms, and the patterns of the token rules that
//! are made from them.

use crate::common::parse_tree::{symbol_text, views, Symbol, SymbolView};
use crate::common::text::decimal;
use vstd::prelude::*;

verus! {

/// `text` without the quotes around it: a text of two or more characters
/// that starts and ends with `"`, or starts and ends with `'`, loses both.
pub open spec fn unquoted(text: Seq<char>) -> Seq<char> {
    if text.len() >= 2 && ((text[0] == '"' && text.last() == '"') || (text[0] == '\''
        && text.last() == '\'')) {
        text.subrange(1, text.len() - 1)
    } else {
        text
    }
}

/// `pattern` without the slashes around it: a text of two or more
/// characters that starts and ends with `/` loses both.
pub open spec fn stripped(pattern: Seq<char>) -> Seq<char> {
    if pattern.len() >= 2 && pattern[0] == '/' && pattern.last() == '/' {
        pattern.subrange(1, pattern.len() - 1)
    } else {
        pattern
    }
}

/// Whether `c` has a meaning of its own in a regular expression.
pub open spec fn is_meta_character(c: char) -> bool {
    c == '\\' || c == '.' || c == '+' || c == '*' || c == '?' || c == '(' || c == ')' || c == '|'
        || c == '[' || c == ']' || c == '{' || c == '}' || c == '^' || c == '$' || c == '#' || c
        == '&' || c == '-' || c == '~'
}

/// `text` with a backslash before each character that has a meaning of its
/// own in a regular expression.
pub open spec fn escaped(text: Seq<char>) -> Seq<char>
    decreases text.len(),
{
    if text.len() == 0 {
        Seq::empty()
    } else if is_meta_character(text.last()) {
        escaped(text.drop_last()).push('\\').push(text.last())
    } else {
        escaped(text.drop_last()).push(text.last())
    }
}

/// The patterns that match the given literals and nothing else: each
/// without its quotes, and escaped.
pub open spec fn literal_patterns(literals: Seq<Seq<char>>) -> Seq<Seq<char>> {
    Seq::new(literals.len(), |i: int| escaped(unquoted(literals[i])))
}

/// `patterns` with a `|` between each two of them.
pub open spec fn alternation(patterns: Seq<Seq<char>>) -> Seq<char>
    decreases patterns.len(),
{
    if patterns.len() == 0 {
        Seq::empty()
    } else if patterns.len() == 1 {
        patterns[0]
    } else {
        alternation(patterns.drop_last()) + seq!['|'] + patterns.last()
    }
}

/// The pattern that matches any one of the given literals: the pattern of
/// the one literal, or the alternation of the patterns in parentheses.
pub open spec fn combined(literals: Seq<Seq<char>>) -> Seq<char> {
    if literals.len() == 0 {
        Seq::empty()
    } else if literals.len() == 1 {
        escaped(unquoted(literals[0]))
    } else {
        seq!['('] + alternation(literal_patterns(literals)) + seq![')']
    }
}

/// The texts of the atoms of each alternative.
pub open spec fn alternative_texts(alternatives: Seq<Seq<SymbolView>>) -> Seq<Seq<Seq<char>>> {
    Seq::new(
        alternatives.len(),
        |i: int| Seq::new(alternatives[i].len(), |j: int| symbol_text(alternatives[i][j])),
    )
}

/// The texts of each vector of `texts`.
pub open spec fn text_views(texts: Seq<Vec<String>>) -> Seq<Seq<Seq<char>>> {
    Seq::new(texts.len(), |i: int| views(texts[i]@))
}

/// The name that stands for `base` at the `k`-th try: `base` itself at
/// first, then `base` with the number of the try behind it.
pub open spec fn candidate(base: Seq<char>, k: nat) -> Seq<char> {
    if k == 0 {
        base
    } else {
        base + decimal(k)
    }
}

/// Escapes the characters of `text` that have a meaning of their own in a
/// regular expression, by `regex::escape`. The function goes through the
/// characters in order and puts a backslash before each of `\.+*?()|[]{}^$#&-~`.
#[verifier::external_body]
pub(crate) fn escape(text: &str) -> (r: String)
    ensures
        r@ == escaped(text@),
{
    regex::escape(text)
}

/// Unquote a string, removing surrounding quotes if they are present.
pub fn unquote(text: &str) -> (r: &str)
    ensures
        r@ == unquoted(text@),
{
    let length = text.unicode_len();
    if length >= 2 {
        let first = text.get_char(0);
        let last = text.get_char(length - 1);
        if (first == '"' && last == '"') || (first == '\'' && last == '\'') {
            return text.substring_char(1, length - 1);
        }
    }
    text
}

/// Strip surrounding slashes from a regex pattern.
pub fn strip(pattern: &str) -> (r: &str)
    ensures
        r@ == stripped(pattern@),
{
    let length = pattern.unicode_len();
    if length >= 2 && pattern.get_char(0) == '/' && pattern.get_char(length - 1) == '/' {
        pattern.substring_char(1, length - 1)
    } else {
        pattern
    }
}

/// Combine multiple literal patterns into a single regex pattern.
pub fn combine_literals(literals: &[String]) -> (r: String)
    ensures
        r@ == combined(views(literals@)),
{
    let ghost shown = views(literals@);
    if literals.len() == 0 {
        return String::new();
    }
    let mut joined = escape(unquote(literals[0].as_str()));
    if literals.len() == 1 {
        return joined;
    }
    let ghost patterns = literal_patterns(shown);
    let mut i: usize = 1;
    assert(patterns.take(1) =~= seq![patterns[0]]);
    while i < literals.len()
        invariant
            1 <= i <= literals.len(),
            shown == views(literals@),
            patterns == literal_patterns(shown),
            joined@ == alternation(patterns.take(i as int)),
        decreases literals.len() - i,
    {
        let next = escape(unquote(literals[i].as_str()));
        proof {
            assert(patterns.take(i + 1).drop_last() =~= patterns.take(i as int));
            assert(patterns.take(i + 1).last() == next@);
            reveal_strlit("|");
            assert("|"@ =~= seq!['|']);
        }
        joined.append("|");
        joined.append(next.as_str());
        i += 1;
    }
    let mut pattern = String::from_str("(");
    pattern.append(joined.as_str());
    pattern.append(")");
    proof {
        assert(patterns.take(i as int) =~= patterns);
        reveal_strlit("(");
        reveal_strlit(")");
        assert("("@ =~= seq!['(']);
        assert(")"@ =~= seq![')']);
    }
    pattern
}

/// Converts a Symbol vector into a string vector.
pub fn symbols_to_strings(symbols: &[Vec<Symbol>]) -> (r: Vec<Vec<String>>)
    ensures
        text_views(r@) == alternative_texts(
            Seq::new(symbols@.len(), |i: int| views(symbols@[i]@)),
        ),
{
    let ghost shown = Seq::new(symbols@.len(), |i: int| views(symbols@[i]@));
    let mut all: Vec<Vec<String>> = Vec::new();
    let mut i: usize = 0;
    while i < symbols.len()
        invariant
            i <= symbols.len(),
            all.len() == i,
            shown == Seq::new(symbols@.len(), |i: int| views(symbols@[i]@)),
            forall|k: int| 0 <= k < i ==> views(#[trigger] all@[k]@) == alternative_texts(shown)[k],
        decreases symbols.len() - i,
    {
        let alternative = &symbols[i];
        let mut texts: Vec<String> = Vec::new();
        let mut j: usize = 0;
        while j < alternative.len()
            invariant
                j <= alternative.len(),
                texts.len() == j,
                forall|k: int| 0 <= k < j ==> (#[trigger] texts@[k])@ == symbol_text(alternative@[k]@),
            decreases alternative.len() - j,
        {
            texts.push(alternative[j].to_string());
            j += 1;
        }
        assert(views(texts@) =~= alternative_texts(shown)[i as int]);
        all.push(texts);
        i += 1;
    }
    assert(text_views(all@) =~= alternative_texts(shown));
    all
}

} // verus!
