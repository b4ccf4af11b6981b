//! Rules that tell a lexer how to recognise terminals.

use crate::common::symbol_table::Terminal;
use vstd::prelude::*;

verus! {

/// The token rules of a lexer, in the order of their precedence: where two
/// rules match at one place, the earlier one decides.
pub type TokenRules = Vec<Rule>;

/// A terminal, the pattern that recognises it, and whether its tokens are
/// dropped from the token stream.
#[derive(Debug)]
pub struct Rule {
    pub kind: Terminal,
    pub regex: String,
    pub skip: bool,
}

/// A token rule as a mathematical value.
pub ghost struct TokenRuleView {
    pub kind: Seq<char>,
    pub regex: Seq<char>,
    pub skip: bool,
}

impl View for Rule {
    type V = TokenRuleView;

    open spec fn view(&self) -> TokenRuleView {
        TokenRuleView { kind: self.kind@, regex: self.regex@, skip: self.skip }
    }
}

impl Clone for Rule {
    fn clone(&self) -> (r: Self)
        ensures
            r@ == self@,
    {
        Rule { kind: self.kind.clone(), regex: self.regex.clone(), skip: self.skip }
    }
}

impl Rule {
    /// The rule that recognises the terminal named `kind` by `regex`.
    pub fn new(kind: &str, regex: &str, skip: bool) -> (r: Self)
        ensures
            r@ == (TokenRuleView { kind: kind@, regex: regex@, skip }),
    {
        Rule { kind: Terminal::named(kind), regex: String::from_str(regex), skip }
    }
}

} // verus!
