//! The errors of the grammar front end and of table construction.

use crate::common::lalr_table::RawItem;
use crate::common::parse_tree::{views, ParseError, ParseErrorView};
use crate::compiler::lexer::{LexicalError, LexicalErrorView};
use vstd::prelude::*;

verus! {

/// A rule whose alternatives do not say whether it defines a terminal or a
/// non-terminal. Each error names the left-hand side of the rule.
#[derive(Debug, PartialEq, Eq)]
pub enum ClassificationError {
    /// The rule holds more than one regular expression.
    MultipleRegex(String),
    /// The rule of a terminal holds a regular expression and a literal.
    MixedPatterns(String),
    /// The rule of a non-terminal holds a regular expression.
    RegexInNonTerminal(String),
}

/// A grammar from which no parser can be made.
#[derive(Debug, PartialEq, Eq)]
pub enum GrammarError {
    /// A symbol on a right-hand side is neither a terminal nor a
    /// non-terminal of the grammar.
    MissingSymbol(String),
    /// No non-terminal is left to start from: each occurs on some
    /// right-hand side, or there is none.
    NoStartSymbol,
    /// More than one non-terminal occurs on no right-hand side.
    AmbiguousStart(Vec<String>),
    /// A non-terminal cannot be reached from the start symbol.
    UnreachableSymbol(String),
    /// The names for the terminals of comments and white space ran out.
    NamesExhausted,
    /// A rule of the grammar text could not be read off its parse tree.
    MalformedRule(String),
    /// The grammar is not LALR(1): the table would hold two actions at one
    /// place, and the policy does not settle which to take.
    Conflict(Conflict),
    /// The grammar has more productions than can be ranked, or more symbols
    /// than can be numbered.
    TooLarge,
    /// The states that the construction gave do not fit together.
    InvalidTable,
}

/// Two actions at one place of a table.
///
/// `items` are the items of the state in which they meet: productions, by
/// their place in the grammar, with the place of the dot. The number of
/// productions of the grammar stands for the production that is added for
/// the start symbol. `token` is the terminal at which they meet, or `None`
/// for the end of the input. `reduce` is the production that the table
/// could reduce by. In a conflict between two reductions, `other` is the
/// second production; in a conflict with a shift there is none, and the
/// items with the dot before `token` are those that shift.
#[derive(Debug, PartialEq, Eq)]
pub struct Conflict {
    pub items: Vec<RawItem>,
    pub token: Option<String>,
    pub reduce: usize,
    pub other: Option<usize>,
}

/// A conflict as a mathematical value.
pub ghost struct ConflictView {
    pub items: Seq<RawItem>,
    pub token: Option<Seq<char>>,
    pub reduce: usize,
    pub other: Option<usize>,
}

impl View for Conflict {
    type V = ConflictView;

    open spec fn view(&self) -> ConflictView {
        ConflictView {
            items: self.items@,
            token: match self.token {
                Some(name) => Some(name@),
                None => None,
            },
            reduce: self.reduce,
            other: self.other,
        }
    }
}

/// Why a grammar text gave no grammar.
#[derive(Debug, PartialEq, Eq)]
pub enum GeneratorError {
    Classification(ClassificationError),
    Grammar(GrammarError),
}

/// A classification error as a mathematical value.
pub ghost enum ClassificationErrorView {
    MultipleRegex(Seq<char>),
    MixedPatterns(Seq<char>),
    RegexInNonTerminal(Seq<char>),
}

/// A grammar error as a mathematical value.
pub ghost enum GrammarErrorView {
    MissingSymbol(Seq<char>),
    NoStartSymbol,
    AmbiguousStart(Seq<Seq<char>>),
    UnreachableSymbol(Seq<char>),
    NamesExhausted,
    MalformedRule(Seq<char>),
    Conflict(ConflictView),
    TooLarge,
    InvalidTable,
}

/// A generator error as a mathematical value.
pub ghost enum GeneratorErrorView {
    Classification(ClassificationErrorView),
    Grammar(GrammarErrorView),
}

impl View for ClassificationError {
    type V = ClassificationErrorView;

    open spec fn view(&self) -> ClassificationErrorView {
        match self {
            ClassificationError::MultipleRegex(lhs) => ClassificationErrorView::MultipleRegex(lhs@),
            ClassificationError::MixedPatterns(lhs) => ClassificationErrorView::MixedPatterns(lhs@),
            ClassificationError::RegexInNonTerminal(lhs) => {
                ClassificationErrorView::RegexInNonTerminal(lhs@)
            },
        }
    }
}

impl View for GrammarError {
    type V = GrammarErrorView;

    open spec fn view(&self) -> GrammarErrorView {
        match self {
            GrammarError::MissingSymbol(name) => GrammarErrorView::MissingSymbol(name@),
            GrammarError::NoStartSymbol => GrammarErrorView::NoStartSymbol,
            GrammarError::AmbiguousStart(names) => GrammarErrorView::AmbiguousStart(views(names@)),
            GrammarError::UnreachableSymbol(name) => GrammarErrorView::UnreachableSymbol(name@),
            GrammarError::NamesExhausted => GrammarErrorView::NamesExhausted,
            GrammarError::MalformedRule(message) => GrammarErrorView::MalformedRule(message@),
            GrammarError::Conflict(conflict) => GrammarErrorView::Conflict(conflict@),
            GrammarError::TooLarge => GrammarErrorView::TooLarge,
            GrammarError::InvalidTable => GrammarErrorView::InvalidTable,
        }
    }
}

impl View for GeneratorError {
    type V = GeneratorErrorView;

    open spec fn view(&self) -> GeneratorErrorView {
        match self {
            GeneratorError::Classification(e) => GeneratorErrorView::Classification(e@),
            GeneratorError::Grammar(e) => GeneratorErrorView::Grammar(e@),
        }
    }
}

/// What can go wrong on the way from a text to a tree: the text holds what
/// is no token; the tokens are no sentence of the grammar; the grammar
/// allows no parser; or a rule of a grammar text defines neither a
/// terminal nor a non-terminal.
#[derive(Debug, PartialEq, Eq)]
pub enum Error {
    Lexical(LexicalError),
    Syntax(ParseError),
    Grammar(GrammarError),
    Classification(ClassificationError),
}

/// An error as a mathematical value.
pub ghost enum ErrorView {
    Lexical(LexicalErrorView),
    Syntax(ParseErrorView),
    Grammar(GrammarErrorView),
    Classification(ClassificationErrorView),
}

impl View for Error {
    type V = ErrorView;

    open spec fn view(&self) -> ErrorView {
        match self {
            Error::Lexical(e) => ErrorView::Lexical(e@),
            Error::Syntax(e) => ErrorView::Syntax(e@),
            Error::Grammar(e) => ErrorView::Grammar(e@),
            Error::Classification(e) => ErrorView::Classification(e@),
        }
    }
}

} // verus!
