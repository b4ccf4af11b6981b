//! The regular-expression recogniser of the `relex` crate, over rules that
//! are known by their numbers.

use crate::common::parse_tree::views;
use vstd::prelude::*;
use vstd::string::StringSliceAdditionalSpecFns;
use vstd::utf8::is_char_boundary;

verus! {

/// The number of a token rule. It is the kind of the tokens that the
/// recogniser of the `relex` crate gives.
#[derive(Debug, Clone, Copy, PartialEq)]
pub struct RuleNumber(pub usize);

/// The number that stands for text that no rule matches: the greatest
/// number there is.
pub open spec fn unrecognized_number() -> usize {
    usize::MAX
}

/// The number that stands for the end of the text: the number below the
/// greatest.
pub open spec fn eof_number() -> usize {
    (usize::MAX - 1) as usize
}

impl relex::TokenKind for RuleNumber {
    /// The kind of text that no rule matches.
    fn unrecognized() -> (r: Self)
        ensures
            r == RuleNumber(unrecognized_number()),
    {
        RuleNumber(usize::MAX)
    }

    /// The kind of the end of the text. It differs from the kind of text
    /// that no rule matches.
    fn eof() -> (r: Self)
        ensures
            r == RuleNumber(eof_number()),
            r != RuleNumber(unrecognized_number()),
    {
        RuleNumber(usize::MAX - 1)
    }
}

/// A regular expression, and whether what it matches is dropped.
#[derive(Debug)]
pub struct Pattern {
    pub regex: String,
    pub skip: bool,
}

/// A pattern as a mathematical value.
pub ghost struct PatternView {
    pub regex: Seq<char>,
    pub skip: bool,
}

impl View for Pattern {
    type V = PatternView;

    open spec fn view(&self) -> PatternView {
        PatternView { regex: self.regex@, skip: self.skip }
    }
}

/// What a recogniser finds at a place of a text: the number of the rule
/// that matches, the byte offsets between which it matches, and whether the
/// match is dropped.
#[derive(Debug, Clone, Copy, PartialEq, Eq, Structural)]
pub struct RawToken {
    pub rule: usize,
    pub start: usize,
    pub end: usize,
    pub skip: bool,
}

/// A recogniser of the `relex` crate for rules that are known by their
/// numbers.
#[verifier::external_body]
pub struct Recognizer {
    inner: relex::Recognizer<RuleNumber>,
}

/// The patterns that a recogniser of the `relex` crate holds, in the order
/// of the numbers of their rules, each with the text of its regular
/// expression as the rule keeps it.
pub uninterp spec fn held_patterns(recognizer: Recognizer) -> Seq<PatternView>;

/// Whether `relex::Rule::new` takes `regex` for the regular expression of
/// a rule: whether the `regex` crate compiles the text as the rule keeps
/// it.
pub uninterp spec fn is_regular_expression(regex: Seq<char>) -> bool;

/// Whether `regex::RegexSet::new` takes the regular expressions of
/// `patterns`, which are taken as the rules keep them, together in one
/// set.
pub uninterp spec fn fit_together(patterns: Seq<PatternView>) -> bool;

/// The text of a regular expression as a rule of the `relex` crate keeps
/// it: with a caret in front, unless it starts with one, so that it
/// matches only at the place where it is tried.
pub open spec fn anchored(regex: Seq<char>) -> Seq<char> {
    if regex.len() > 0 && regex[0] == '^' {
        regex
    } else {
        seq!['^'] + regex
    }
}

/// `patterns` as the rules of the `relex` crate keep them: each anchored.
pub open spec fn anchored_patterns(patterns: Seq<PatternView>) -> Seq<PatternView> {
    Seq::new(
        patterns.len(),
        |i: int| PatternView { regex: anchored(patterns[i].regex), skip: patterns[i].skip },
    )
}

/// What `relex::Recognizer::read_at` finds in `source` at the byte offset
/// `position`, for a recogniser that was built from `patterns`.
pub uninterp spec fn token_at(
    patterns: Seq<PatternView>,
    source: Seq<char>,
    position: usize,
) -> RawToken;

/// The pattern that matches any one character.
pub open spec fn any_character() -> Seq<char> {
    "(?s)."@
}

/// Whether the last of `patterns`, which are taken as the rules keep them,
/// matches any one character, so that some pattern matches wherever there
/// is text left.
pub open spec fn matches_everywhere(patterns: Seq<PatternView>) -> bool {
    patterns.len() > 0 && patterns.last().regex == anchored(any_character())
}

/// Tells whether `relex::Rule::new` takes `regex` for the regular
/// expression of a rule. The kind that the rule is tried with plays no
/// part in it.
#[verifier::external_body]
pub(crate) fn compiles(regex: &str) -> (b: bool)
    ensures
        b == is_regular_expression(regex@),
{
    relex::Rule::new(RuleNumber(0), regex).is_ok()
}

/// Builds a recogniser of the `relex` crate from `patterns`: each becomes a
/// rule by `relex::Rule::new`, with its place as the kind of its tokens,
/// and the rules go to a `relex::RecognizerBuilder` in order. `Rule::new`
/// puts a caret in front of a regular expression that does not start with
/// one, and compiles and keeps the text with the caret; each of the
/// patterns is one that it takes. The builder would not return where
/// `regex::RegexSet::new` fails on the patterns of the rules together; that
/// is tried first, and nothing comes back where it fails.
#[verifier::external_body]
pub(crate) fn build_recognizer(patterns: &Vec<Pattern>) -> (r: Option<Recognizer>)
    requires
        forall|i: int|
            0 <= i < patterns.len() ==> is_regular_expression((#[trigger] patterns@[i]).regex@),
    ensures
        match r {
            Some(recognizer) => fit_together(anchored_patterns(views(patterns@)))
                && held_patterns(recognizer) == anchored_patterns(views(patterns@)),
            None => !fit_together(anchored_patterns(views(patterns@))),
        },
{
    let mut rules = Vec::new();
    for (place, pattern) in patterns.iter().enumerate() {
        rules.push(relex::Rule::new(RuleNumber(place), &pattern.regex).ok()?.skip(pattern.skip));
    }
    if regex::RegexSet::new(rules.iter().map(|rule| rule.re.as_str())).is_err() {
        return None;
    }
    let mut builder = relex::RecognizerBuilder::new();
    for rule in rules {
        builder = builder.token(rule);
    }
    Some(Recognizer { inner: builder.build() })
}

/// Reads the token at the byte offset `position` of `source` by
/// `relex::Recognizer::read_at`: the first rule that matches there, and how
/// far it matches. The function fails where `position` lies within a
/// character, and where no rule matches and the text that follows holds a
/// character of more than one byte. A recogniser whose last pattern matches
/// any character has a rule that matches wherever text is left.
#[verifier::external_body]
pub(crate) fn read_token(recognizer: &Recognizer, source: &str, position: usize) -> (r: RawToken)
    requires
        matches_everywhere(held_patterns(*recognizer)),
        position < source.spec_bytes().len(),
        is_char_boundary(source.spec_bytes(), position as int),
    ensures
        r == token_at(held_patterns(*recognizer), source@, position),
{
    let token = recognizer.inner.read_at(source, position);
    RawToken { rule: token.kind.0, start: token.start, end: token.end, skip: token.skip }
}

} // verus!
