//! Tokens and their places in the source text.

use crate::common::parse_tree::{views, Span};
use crate::common::symbol_table::{eof_name, Terminal};
use crate::common::token_rules::{TokenRuleView, TokenRules};
use crate::compiler::recognizer::{
    anchored, anchored_patterns, any_character, build_recognizer, compiles, fit_together,
    held_patterns, is_regular_expression, matches_everywhere, read_token, token_at, Pattern,
    PatternView, RawToken, Recognizer,
};
use vstd::prelude::*;
use vstd::string::StringSliceAdditionalSpecFns;
use vstd::utf8::{decode_utf8, encode_utf8, is_char_boundary};

verus! {

/// A piece of the source text that a token rule matched: the terminal of the
/// rule, the text, and the byte offsets at which the text starts and ends.
#[derive(Debug, PartialEq, Eq)]
pub struct Token {
    pub kind: Terminal,
    pub text: String,
    pub start: usize,
    pub end: usize,
}

/// A token with an attached source `Span` (start/end offsets plus line/column).
#[derive(Debug, PartialEq, Eq)]
pub struct LocatedToken {
    pub token: Token,
    pub span: Span,
}

/// A token as a mathematical value.
pub ghost struct TokenView {
    pub kind: Seq<char>,
    pub text: Seq<char>,
    pub start: usize,
    pub end: usize,
}

/// A located token as a mathematical value.
pub ghost struct LocatedTokenView {
    pub token: TokenView,
    pub span: Span,
}

impl View for Token {
    type V = TokenView;

    open spec fn view(&self) -> TokenView {
        TokenView { kind: self.kind@, text: self.text@, start: self.start, end: self.end }
    }
}

impl View for LocatedToken {
    type V = LocatedTokenView;

    open spec fn view(&self) -> LocatedTokenView {
        LocatedTokenView { token: self.token@, span: self.span }
    }
}

impl Clone for Token {
    fn clone(&self) -> (r: Self)
        ensures
            r@ == self@,
    {
        Token {
            kind: self.kind.clone(),
            text: self.text.clone(),
            start: self.start,
            end: self.end,
        }
    }
}

impl Clone for LocatedToken {
    fn clone(&self) -> (r: Self)
        ensures
            r@ == self@,
    {
        LocatedToken { token: self.token.clone(), span: self.span }
    }
}

impl Token {
    /// The token of the terminal named `kind` with the text `text`, which
    /// starts at the byte offset `start`.
    pub fn new(kind: &str, text: &str, start: usize, end: usize) -> (r: Self)
        ensures
            r@ == (TokenView { kind: kind@, text: text@, start, end }),
    {
        Token { kind: Terminal::named(kind), text: String::from_str(text), start, end }
    }
}

/// Why a text could not be turned into tokens.
#[derive(Debug, PartialEq, Eq)]
pub enum LexicalError {
    /// The pattern of the token rule of the named terminal is no regular
    /// expression.
    InvalidPattern(String),
    /// The patterns of the token rules cannot be taken together: they are
    /// too large.
    PatternsTooLarge,
    /// No token rule matches the text at the place.
    Unrecognized { text: String, span: Span },
    /// A token rule matches at the place without taking any text.
    Stalled(Span),
}

/// A lexical error as a mathematical value.
pub ghost enum LexicalErrorView {
    InvalidPattern(Seq<char>),
    PatternsTooLarge,
    Unrecognized { text: Seq<char>, span: Span },
    Stalled(Span),
}

impl View for LexicalError {
    type V = LexicalErrorView;

    open spec fn view(&self) -> LexicalErrorView {
        match self {
            LexicalError::InvalidPattern(kind) => LexicalErrorView::InvalidPattern(kind@),
            LexicalError::PatternsTooLarge => LexicalErrorView::PatternsTooLarge,
            LexicalError::Unrecognized { text, span } => LexicalErrorView::Unrecognized {
                text: text@,
                span: *span,
            },
            LexicalError::Stalled(span) => LexicalErrorView::Stalled(*span),
        }
    }
}

/// Whether `byte` goes on with a character that began before it.
pub open spec fn continues(byte: u8) -> bool {
    128 <= byte < 192
}

/// The number of line feeds among `bytes`.
pub open spec fn lines_before(bytes: Seq<u8>) -> nat
    decreases bytes.len(),
{
    if bytes.len() == 0 {
        0
    } else if bytes.last() == 10 {
        lines_before(bytes.drop_last()) + 1
    } else {
        lines_before(bytes.drop_last())
    }
}

/// The number of characters that begin among `bytes` after the last line
/// feed.
pub open spec fn column_after(bytes: Seq<u8>) -> nat
    decreases bytes.len(),
{
    if bytes.len() == 0 {
        0
    } else if bytes.last() == 10 {
        0
    } else if continues(bytes.last()) {
        column_after(bytes.drop_last())
    } else {
        column_after(bytes.drop_last()) + 1
    }
}

/// `n`, or the greatest `usize` where `n` is greater.
pub open spec fn capped(n: nat) -> usize {
    if n <= usize::MAX {
        n as usize
    } else {
        usize::MAX
    }
}

/// The part of `bytes` before the byte offset `offset`, or all of it where
/// the offset lies behind it.
pub open spec fn before(bytes: Seq<u8>, offset: usize) -> Seq<u8> {
    if offset < bytes.len() {
        bytes.take(offset as int)
    } else {
        bytes
    }
}

/// The line of the byte offset `offset`, counted from 1: one more than the
/// line feeds before it.
pub open spec fn line_of(bytes: Seq<u8>, offset: usize) -> usize {
    capped(lines_before(before(bytes, offset)) + 1)
}

/// The column of the byte offset `offset`, counted from 1: one more than
/// the characters between the last line feed before it and itself.
pub open spec fn column_of(bytes: Seq<u8>, offset: usize) -> usize {
    capped(column_after(before(bytes, offset)) + 1)
}

/// The span of the bytes from `start` to `end`, with the line and the
/// column of `start`.
pub open spec fn span_of(bytes: Seq<u8>, start: usize, end: usize) -> Span {
    Span { start, end, line: line_of(bytes, start), column: column_of(bytes, start) }
}

/// The token that ends the stream for a text of the given bytes.
pub open spec fn end_token(bytes: Seq<u8>) -> LocatedTokenView {
    LocatedTokenView {
        token: TokenView {
            kind: eof_name(),
            text: Seq::empty(),
            start: bytes.len() as usize,
            end: bytes.len() as usize,
        },
        span: span_of(bytes, bytes.len() as usize, bytes.len() as usize),
    }
}

/// The patterns of `rules`, and behind them the pattern that matches any
/// one character, as the recogniser keeps them: each anchored, so that it
/// matches only at the place where it is tried.
pub open spec fn patterns_of(rules: Seq<TokenRuleView>) -> Seq<PatternView> {
    Seq::new(
        rules.len() + 1,
        |i: int|
            if i < rules.len() {
                PatternView { regex: anchored(rules[i].regex), skip: rules[i].skip }
            } else {
                PatternView { regex: anchored(any_character()), skip: false }
            },
    )
}

/// The terminals of `rules`.
pub open spec fn kinds_of(rules: Seq<TokenRuleView>) -> Seq<Seq<char>> {
    Seq::new(rules.len(), |i: int| rules[i].kind)
}

/// The place of the first of `rules` from the place `from` on whose
/// pattern is no regular expression.
pub open spec fn first_unusable(rules: Seq<TokenRuleView>, from: int) -> Option<int>
    decreases rules.len() - from,
{
    if from < 0 || from >= rules.len() {
        None
    } else if !is_regular_expression(rules[from].regex) {
        Some(from)
    } else {
        first_unusable(rules, from + 1)
    }
}

/// Why no lexer can be made of `rules`, if none can: the pattern of a
/// rule is no regular expression, which is told of the first such rule by
/// its terminal; or the patterns cannot be taken together.
pub open spec fn refused(rules: Seq<TokenRuleView>) -> Option<LexicalErrorView> {
    match first_unusable(rules, 0) {
        Some(place) => Some(LexicalErrorView::InvalidPattern(rules[place].kind)),
        None => if is_regular_expression(any_character()) && fit_together(patterns_of(rules)) {
            None
        } else {
            Some(LexicalErrorView::PatternsTooLarge)
        },
    }
}

/// Whether what the recogniser found at `position` is a piece of the text
/// that starts there, takes at least one byte, and ends between two
/// characters.
pub open spec fn usable(found: RawToken, bytes: Seq<u8>, position: usize) -> bool {
    &&& found.start == position
    &&& position < found.end <= bytes.len()
    &&& is_char_boundary(bytes, found.end as int)
    &&& is_char_boundary(bytes.subrange(0, found.end as int), position as int)
}

/// Where the text that no rule matches ends, when it goes as far as the
/// byte offset `position`: there, where the text ends or a rule matches or
/// the recogniser finds nothing that can be used; else behind the
/// character at `position`, by the same rule.
pub open spec fn run_end(
    patterns: Seq<PatternView>,
    kinds: Seq<Seq<char>>,
    text: Seq<char>,
    position: usize,
) -> usize
    decreases encode_utf8(text).len() - position,
{
    let bytes = encode_utf8(text);
    let found = token_at(patterns, text, position);
    if position >= bytes.len() || !usable(found, bytes, position) || found.rule < kinds.len() {
        position
    } else {
        run_end(patterns, kinds, text, found.end)
    }
}

/// The tokens of `text` from the byte offset `position` on, for a
/// recogniser that was built from `patterns` for the terminals `kinds`.
///
/// At each place the recogniser tells which rule matches and how far. The
/// match of a rule that skips is dropped; any other match is a token of
/// the terminal of its rule. A match of the pattern behind the rules means
/// that none of the rules matches: that is an error, which holds the text
/// from there to the next place where a rule matches or the text ends. The
/// stream ends with the token of the end of the input.
pub open spec fn scanned(
    patterns: Seq<PatternView>,
    kinds: Seq<Seq<char>>,
    text: Seq<char>,
    position: usize,
) -> Result<Seq<LocatedTokenView>, LexicalErrorView>
    decreases encode_utf8(text).len() - position,
{
    let bytes = encode_utf8(text);
    let found = token_at(patterns, text, position);
    if position >= bytes.len() {
        Ok(seq![end_token(bytes)])
    } else if !usable(found, bytes, position) {
        Err(LexicalErrorView::Stalled(span_of(bytes, position, position)))
    } else if found.rule >= kinds.len() {
        let end = run_end(patterns, kinds, text, found.end);
        Err(
            LexicalErrorView::Unrecognized {
                text: decode_utf8(bytes.subrange(position as int, end as int)),
                span: span_of(bytes, position, end),
            },
        )
    } else if found.skip {
        scanned(patterns, kinds, text, found.end)
    } else {
        match scanned(patterns, kinds, text, found.end) {
            Err(e) => Err(e),
            Ok(rest) => Ok(
                seq![
                    LocatedTokenView {
                        token: TokenView {
                            kind: kinds[found.rule as int],
                            text: decode_utf8(bytes.subrange(position as int, found.end as int)),
                            start: position,
                            end: found.end,
                        },
                        span: span_of(bytes, position, found.end),
                    },
                ] + rest,
            ),
        }
    }
}

/// What a result holds: the tokens and the error by their views.
pub open spec fn tokens_result(r: Result<Vec<LocatedToken>, LexicalError>) -> Result<
    Seq<LocatedTokenView>,
    LexicalErrorView,
> {
    match r {
        Ok(tokens) => Ok(views(tokens@)),
        Err(e) => Err(e@),
    }
}

/// `result` with `tokens` before its tokens.
pub open spec fn following(
    tokens: Seq<LocatedTokenView>,
    result: Result<Seq<LocatedTokenView>, LexicalErrorView>,
) -> Result<Seq<LocatedTokenView>, LexicalErrorView> {
    match result {
        Ok(rest) => Ok(tokens + rest),
        Err(e) => Err(e),
    }
}

/// A lexer: the recogniser for the patterns of its token rules, and the
/// terminals of the rules.
pub struct Lexer {
    recognizer: Recognizer,
    kinds: Vec<Terminal>,
}

impl Lexer {
    /// The patterns that the lexer was built from.
    pub closed spec fn patterns(&self) -> Seq<PatternView> {
        held_patterns(self.recognizer)
    }

    /// The terminals of the token rules.
    pub closed spec fn kinds(&self) -> Seq<Seq<char>> {
        views(self.kinds@)
    }

    /// Whether the lexer has one pattern for each terminal, and behind them
    /// the pattern that matches any one character.
    pub open spec fn wf(&self) -> bool {
        matches_everywhere(self.patterns()) && self.patterns().len() == self.kinds().len() + 1
    }

    /// Creates a new Lexer from token rules.
    ///
    /// # Errors
    ///
    /// Returns an error if the pattern of a token rule is no regular
    /// expression, which names the terminal of the first such rule, or if
    /// the patterns cannot be taken together.
    pub fn new(token_rules: &TokenRules) -> (r: Result<Lexer, LexicalError>)
        ensures
            match r {
                Ok(lexer) => {
                    &&& refused(views(token_rules@)) is None
                    &&& lexer.wf()
                    &&& lexer.patterns() == patterns_of(views(token_rules@))
                    &&& lexer.kinds() == kinds_of(views(token_rules@))
                },
                Err(e) => refused(views(token_rules@)) == Some(e@),
            },
    {
        let ghost rules = views(token_rules@);
        let mut patterns: Vec<Pattern> = Vec::new();
        let mut kinds: Vec<Terminal> = Vec::new();
        let mut i: usize = 0;
        while i < token_rules.len()
            invariant
                i <= token_rules.len(),
                rules == views(token_rules@),
                patterns.len() == i,
                kinds.len() == i,
                first_unusable(rules, 0) == first_unusable(rules, i as int),
                forall|k: int|
                    0 <= k < i ==> (#[trigger] patterns@[k])@ == (PatternView {
                        regex: rules[k].regex,
                        skip: rules[k].skip,
                    }),
                forall|k: int|
                    0 <= k < i ==> is_regular_expression((#[trigger] patterns@[k]).regex@),
                forall|k: int| 0 <= k < i ==> (#[trigger] kinds@[k])@ == rules[k].kind,
            decreases token_rules.len() - i,
        {
            let rule = &token_rules[i];
            assert(rules[i as int] == rule@);
            if !compiles(rule.regex.as_str()) {
                return Err(LexicalError::InvalidPattern(rule.kind.0.clone()));
            }
            patterns.push(Pattern { regex: rule.regex.clone(), skip: rule.skip });
            kinds.push(rule.kind.clone());
            i += 1;
        }
        if !compiles("(?s).") {
            return Err(LexicalError::PatternsTooLarge);
        }
        patterns.push(Pattern { regex: String::from_str("(?s)."), skip: false });
        assert(anchored_patterns(views(patterns@)) =~= patterns_of(rules));
        assert(views(kinds@) =~= kinds_of(rules));
        match build_recognizer(&patterns) {
            Some(recognizer) => Ok(Lexer { recognizer, kinds }),
            None => Err(LexicalError::PatternsTooLarge),
        }
    }

    /// Compute (line, column) from byte offset.
    pub fn compute_line_col(input: &str, offset: usize) -> (r: (usize, usize))
        ensures
            r.0 == line_of(input.spec_bytes(), offset),
            r.1 == column_of(input.spec_bytes(), offset),
    {
        let bytes = input.as_bytes();
        let end = if offset < bytes.len() {
            offset
        } else {
            bytes.len()
        };
        let ghost prefix = before(input.spec_bytes(), offset);
        assert(prefix =~= bytes@.take(end as int));
        let mut lines: usize = 0;
        let mut column: usize = 0;
        let mut i: usize = 0;
        while i < end
            invariant
                i <= end <= bytes.len(),
                prefix == bytes@.take(end as int),
                lines == lines_before(prefix.take(i as int)),
                column == column_after(prefix.take(i as int)),
                lines <= i,
                column <= i,
            decreases end - i,
        {
            proof {
                assert(prefix.take(i + 1).drop_last() =~= prefix.take(i as int));
                assert(prefix.take(i + 1).last() == bytes@[i as int]);
            }
            let byte = bytes[i];
            if byte == 10 {
                lines += 1;
                column = 0;
            } else if !(128 <= byte && byte < 192) {
                column += 1;
            }
            i += 1;
        }
        assert(prefix.take(i as int) =~= prefix);
        let line = if lines < usize::MAX {
            lines + 1
        } else {
            lines
        };
        let col = if column < usize::MAX {
            column + 1
        } else {
            column
        };
        (line, col)
    }

    /// The span of the bytes of `input` from `start` to `end`.
    fn span_between(input: &str, start: usize, end: usize) -> (r: Span)
        ensures
            r == span_of(input.spec_bytes(), start, end),
    {
        let (line, column) = Lexer::compute_line_col(input, start);
        Span::new(start, end, line, column)
    }

    /// Where the text of `input` that no rule matches ends, when it goes as
    /// far as the byte offset `from`.
    fn end_of_run(&self, input: &str, from: usize) -> (r: usize)
        requires
            self.wf(),
            from <= input.spec_bytes().len(),
            is_char_boundary(input.spec_bytes(), from as int),
        ensures
            r == run_end(self.patterns(), self.kinds(), input@, from),
            from <= r <= input.spec_bytes().len(),
            is_char_boundary(input.spec_bytes(), r as int),
    {
        let ghost bytes = input.spec_bytes();
        let ghost patterns = self.patterns();
        let ghost kinds = self.kinds();
        let length = input.as_bytes().len();
        let mut end = from;
        while end < length
            invariant
                self.wf(),
                bytes == input.spec_bytes(),
                bytes == encode_utf8(input@),
                patterns == self.patterns(),
                kinds == self.kinds(),
                kinds == views(self.kinds@),
                length == bytes.len(),
                from <= end <= length,
                is_char_boundary(bytes, end as int),
                run_end(patterns, kinds, input@, end) == run_end(patterns, kinds, input@, from),
            decreases length - end,
        {
            let found = read_token(&self.recognizer, input, end);
            if !(found.start == end && end < found.end && found.end <= length
                && input.is_char_boundary(found.end)) {
                return end;
            }
            let (head, _) = input.split_at(found.end);
            if !head.is_char_boundary(end) || found.rule < self.kinds.len() {
                return end;
            }
            end = found.end;
        }
        end
    }

    /// Tokenizes the input string and returns the tokens, each with its
    /// place, and behind them the token of the end of the input.
    ///
    /// # Errors
    ///
    /// Returns an error for the first place at which no token rule
    /// matches, with the text from there to the next place where a rule
    /// matches.
    pub fn tokenize(&self, input: &str) -> (r: Result<Vec<LocatedToken>, LexicalError>)
        requires
            self.wf(),
        ensures
            tokens_result(r) == scanned(self.patterns(), self.kinds(), input@, 0),
    {
        broadcast use vstd::utf8::encode_utf8_valid_utf8;
        broadcast use vstd::utf8::encode_utf8_decode_utf8;

        let ghost bytes = input.spec_bytes();
        let ghost patterns = self.patterns();
        let ghost kinds = self.kinds();
        let length = input.as_bytes().len();
        let mut tokens: Vec<LocatedToken> = Vec::new();
        let mut position: usize = 0;
        assert(following(views(tokens@), scanned(patterns, kinds, input@, 0)) == scanned(
            patterns,
            kinds,
            input@,
            0,
        )) by {
            let rest = scanned(patterns, kinds, input@, 0);
            if let Ok(more) = rest {
                assert(views(tokens@) + more =~= more);
            }
        }
        while position < length
            invariant
                self.wf(),
                bytes == input.spec_bytes(),
                bytes == encode_utf8(input@),
                patterns == self.patterns(),
                kinds == self.kinds(),
                kinds == views(self.kinds@),
                length == bytes.len(),
                position <= length,
                is_char_boundary(bytes, position as int),
                following(views(tokens@), scanned(patterns, kinds, input@, position)) == scanned(
                    patterns,
                    kinds,
                    input@,
                    0,
                ),
            decreases length - position,
        {
            let found = read_token(&self.recognizer, input, position);
            let ghost rest = scanned(patterns, kinds, input@, position);
            if !(found.start == position && position < found.end && found.end <= length
                && input.is_char_boundary(found.end)) {
                return Err(LexicalError::Stalled(Lexer::span_between(input, position, position)));
            }
            let (head, _) = input.split_at(found.end);
            if !head.is_char_boundary(position) {
                return Err(LexicalError::Stalled(Lexer::span_between(input, position, position)));
            }
            let (_, text) = head.split_at(position);
            assert(text.spec_bytes() =~= bytes.subrange(position as int, found.end as int));
            proof {
                vstd::utf8::encode_utf8_decode_utf8(text@);
            }
            assert(text@ == decode_utf8(bytes.subrange(position as int, found.end as int)));
            if found.rule >= self.kinds.len() {
                let end = self.end_of_run(input, found.end);
                let (run, _) = input.split_at(end);
                proof {
                    vstd::utf8::encode_utf8_valid_utf8(input@);
                    vstd::utf8::valid_utf8_split(bytes, end as int);
                    vstd::utf8::is_char_boundary_iff_not_is_continuation_byte(
                        bytes,
                        position as int,
                    );
                    vstd::utf8::is_char_boundary_iff_not_is_continuation_byte(
                        run.spec_bytes(),
                        position as int,
                    );
                }
                let (_, unmatched) = run.split_at(position);
                assert(unmatched.spec_bytes() =~= bytes.subrange(position as int, end as int));
                proof {
                    vstd::utf8::encode_utf8_decode_utf8(unmatched@);
                }
                return Err(
                    LexicalError::Unrecognized {
                        text: String::from_str(unmatched),
                        span: Lexer::span_between(input, position, end),
                    },
                );
            }
            let span = Lexer::span_between(input, position, found.end);
            if !found.skip {
                let token = LocatedToken {
                    token: Token {
                        kind: self.kinds[found.rule].clone(),
                        text: String::from_str(text),
                        start: position,
                        end: found.end,
                    },
                    span,
                };
                let ghost before = views(tokens@);
                let ghost next = scanned(patterns, kinds, input@, found.end);
                tokens.push(token);
                proof {
                    assert(views(tokens@) =~= before.push(token@));
                    if let Ok(more) = next {
                        assert(before + (seq![token@] + more) =~= before.push(token@) + more);
                    }
                }
            }
            position = found.end;
        }
        let end = LocatedToken {
            token: Token {
                kind: Terminal::eof(),
                text: String::new(),
                start: length,
                end: length,
            },
            span: Lexer::span_between(input, length, length),
        };
        let ghost before = views(tokens@);
        tokens.push(end);
        assert(views(tokens@) =~= before + seq![end_token(bytes)]);
        Ok(tokens)
    }
}

} // verus!
