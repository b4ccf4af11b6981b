//! Placing the tokens of a foreign lexer in the source text.

use crate::common::parse_tree::{views, Span};
use crate::common::symbol_table::{unrecognized_name, Terminal};
use crate::compiler::lexer::{LocatedToken, LocatedTokenView, Token, TokenView};
use vstd::prelude::*;
use vstd::string::StringSliceAdditionalSpecFns;
use vstd::utf8::encode_utf8;

verus! {

/// A lexer that is not built from token rules.
pub trait LexerAdapter {
    fn tokenize(&self, input: &str) -> Vec<LocatedToken>;
}

/// A token as a foreign lexer gives it: the name of its kind, which is
/// empty where the lexer knows none, its text, and its line and column.
#[derive(Debug, PartialEq, Eq)]
pub struct BridgeToken {
    pub kind: String,
    pub value: String,
    pub line: usize,
    pub column: usize,
}

/// A foreign token as a mathematical value.
pub ghost struct BridgeTokenView {
    pub kind: Seq<char>,
    pub value: Seq<char>,
    pub line: usize,
    pub column: usize,
}

impl View for BridgeToken {
    type V = BridgeTokenView;

    open spec fn view(&self) -> BridgeTokenView {
        BridgeTokenView {
            kind: self.kind@,
            value: self.value@,
            line: self.line,
            column: self.column,
        }
    }
}

/// The number of bytes of the texts of `tokens`.
pub open spec fn total_length(tokens: Seq<BridgeTokenView>) -> nat
    decreases tokens.len(),
{
    if tokens.len() == 0 {
        0
    } else {
        total_length(tokens.drop_last()) + encode_utf8(tokens.last().value).len()
    }
}

/// The terminal of a foreign token: the one that its kind names, or the
/// terminal of unrecognised input where it names none.
pub open spec fn bridged_kind(kind: Seq<char>) -> Seq<char> {
    if kind.len() == 0 {
        unrecognized_name()
    } else {
        kind
    }
}

/// The token at the place `i` of `tokens`, placed in the source: the texts
/// of the tokens follow each other without a gap, so that it starts where
/// the texts before it end.
pub open spec fn located_at(tokens: Seq<BridgeTokenView>, i: int) -> LocatedTokenView {
    let start = total_length(tokens.take(i)) as usize;
    let end = total_length(tokens.take(i + 1)) as usize;
    LocatedTokenView {
        token: TokenView { kind: bridged_kind(tokens[i].kind), text: tokens[i].value, start, end },
        span: Span { start, end, line: tokens[i].line, column: tokens[i].column },
    }
}

/// The tokens placed in the source.
pub open spec fn located(tokens: Seq<BridgeTokenView>) -> Seq<LocatedTokenView> {
    Seq::new(tokens.len(), |i: int| located_at(tokens, i))
}

/// The adapter for the tokens of a lexer that is written in C++.
pub struct CppLexerAdapter;

impl CppLexerAdapter {
    /// Places the tokens of the foreign lexer in the source. Their texts
    /// are no longer together than a text can be.
    pub fn locate(tokens: Vec<BridgeToken>) -> (r: Vec<LocatedToken>)
        requires
            total_length(views(tokens@)) <= usize::MAX,
        ensures
            views(r@) == located(views(tokens@)),
    {
        let ghost shown = views(tokens@);
        let mut rest = tokens;
        let mut result: Vec<LocatedToken> = Vec::new();
        let mut offset: usize = 0;
        let mut i: usize = 0;
        let count = rest.len();
        proof {
            assert(shown.take(0) =~= Seq::<BridgeTokenView>::empty());
        }
        while i < count
            invariant
                i <= count,
                count == rest.len(),
                count == shown.len(),
                shown == views(rest@),
                total_length(shown) <= usize::MAX,
                offset == total_length(shown.take(i as int)),
                result.len() == i,
                forall|k: int| 0 <= k < i ==> (#[trigger] result@[k])@ == located_at(shown, k),
            decreases count - i,
        {
            proof {
                assert(shown.take(i + 1).drop_last() =~= shown.take(i as int));
                assert(shown.take(i + 1).last() == rest@[i as int]@);
                lemma_total_length_grows(shown, i + 1);
            }
            let token = &rest[i];
            let length = token.value.as_str().as_bytes().len();
            assert(length == encode_utf8(token.value@).len());
            let start = offset;
            let end = start + length;
            let kind = if token.kind.as_str().unicode_len() == 0 {
                Terminal::unrecognized()
            } else {
                Terminal(token.kind.clone())
            };
            result.push(
                LocatedToken {
                    token: Token { kind, text: token.value.clone(), start, end },
                    span: Span { start, end, line: token.line, column: token.column },
                },
            );
            offset = end;
            i += 1;
        }
        assert(views(result@) =~= located(shown));
        result
    }
}

/// The texts of the first tokens are no longer than the texts of all.
pub proof fn lemma_total_length_grows(tokens: Seq<BridgeTokenView>, count: int)
    requires
        0 <= count <= tokens.len(),
    ensures
        total_length(tokens.take(count)) <= total_length(tokens),
    decreases tokens.len() - count,
{
    if count < tokens.len() {
        lemma_total_length_grows(tokens, count + 1);
        assert(tokens.take(count + 1).drop_last() =~= tokens.take(count));
    } else {
        assert(tokens.take(count) =~= tokens);
    }
}

} // verus!
