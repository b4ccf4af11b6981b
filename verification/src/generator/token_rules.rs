//! The token rules of the grammar notation.

use crate::common::parse_tree::views;
use crate::common::token_rules::{Rule, TokenRuleView, TokenRules};
use vstd::prelude::*;

verus! {

/// The token rules of the grammar notation, as mathematical values: the
/// signs, the keyword of the empty production, literals, regular
/// expressions, identifiers, and the comments and white space that a lexer
/// drops.
pub open spec fn notation_token_rules() -> Seq<TokenRuleView> {
    seq![
        TokenRuleView { kind: "At"@, regex: r"@"@, skip: false },
        TokenRuleView { kind: "Equal"@, regex: r"="@, skip: false },
        TokenRuleView { kind: "Pipe"@, regex: r"\|"@, skip: false },
        TokenRuleView { kind: "LeftBrace"@, regex: r"\{"@, skip: false },
        TokenRuleView { kind: "RightBrace"@, regex: r"\}"@, skip: false },
        TokenRuleView { kind: "LeftBracket"@, regex: r"\["@, skip: false },
        TokenRuleView { kind: "RightBracket"@, regex: r"\]"@, skip: false },
        TokenRuleView { kind: "LeftParentheses"@, regex: r"\("@, skip: false },
        TokenRuleView { kind: "RightParentheses"@, regex: r"\)"@, skip: false },
        TokenRuleView { kind: "Comma"@, regex: r","@, skip: false },
        TokenRuleView { kind: "Tilde"@, regex: r"~"@, skip: false },
        TokenRuleView { kind: "PositiveLookAhead"@, regex: r"&"@, skip: false },
        TokenRuleView { kind: "NegativeLookAhead"@, regex: r"!"@, skip: false },
        TokenRuleView { kind: "PositiveLookBehind"@, regex: r"<-&"@, skip: false },
        TokenRuleView { kind: "NegativeLookBehind"@, regex: r"<-!"@, skip: false },
        TokenRuleView { kind: "Empty"@, regex: r"EPSILON"@, skip: false },
        TokenRuleView { kind: "Literal"@, regex: r#""([^"\\]|\\.)*""#@, skip: false },
        TokenRuleView { kind: "Regex"@, regex: r"/(?:[^/\\]|\\.)*/"@, skip: false },
        TokenRuleView { kind: "Identifier"@, regex: r"[A-Za-z_][A-Za-z_0-9]*"@, skip: false },
        TokenRuleView { kind: "Comment"@, regex: r"#.*"@, skip: true },
        TokenRuleView { kind: "Whitespace"@, regex: r"\s+"@, skip: true },
    ]
}

/// The token rules of the grammar notation.
pub fn token_rules() -> (r: TokenRules)
    ensures
        views(r@) == notation_token_rules(),
{
    let mut rules: Vec<Rule> = Vec::new();
    rules.push(Rule::new("At", r"@", false));
    rules.push(Rule::new("Equal", r"=", false));
    rules.push(Rule::new("Pipe", r"\|", false));
    rules.push(Rule::new("LeftBrace", r"\{", false));
    rules.push(Rule::new("RightBrace", r"\}", false));
    rules.push(Rule::new("LeftBracket", r"\[", false));
    rules.push(Rule::new("RightBracket", r"\]", false));
    rules.push(Rule::new("LeftParentheses", r"\(", false));
    rules.push(Rule::new("RightParentheses", r"\)", false));
    rules.push(Rule::new("Comma", r",", false));
    rules.push(Rule::new("Tilde", r"~", false));
    rules.push(Rule::new("PositiveLookAhead", r"&", false));
    rules.push(Rule::new("NegativeLookAhead", r"!", false));
    rules.push(Rule::new("PositiveLookBehind", r"<-&", false));
    rules.push(Rule::new("NegativeLookBehind", r"<-!", false));
    rules.push(Rule::new("Empty", r"EPSILON", false));
    rules.push(Rule::new("Literal", r#""([^"\\]|\\.)*""#, false));
    rules.push(Rule::new("Regex", r"/(?:[^/\\]|\\.)*/", false));
    rules.push(Rule::new("Identifier", r"[A-Za-z_][A-Za-z_0-9]*", false));
    rules.push(Rule::new("Comment", r"#.*", true));
    rules.push(Rule::new("Whitespace", r"\s+", true));
    assert(views(rules@) =~= notation_token_rules());
    rules
}

} // verus!
