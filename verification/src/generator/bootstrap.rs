//! The two passes from a grammar text to a parser of the language that the
//! text describes: the parser of the grammar notation reads the text, and
//! from what it reads a lexer and a table are made.

use crate::common::action::{accepted, syntax_error, tree_nodes, Action, Call, DefaultAction};
use crate::common::error::{Error, ErrorView, GeneratorError, GeneratorErrorView};
use crate::common::grammar_rules::GrammarRulesView;
use crate::common::parse_table::{built, ConflictPolicy, ParseTable, TableView};
use crate::common::parse_tree::{views, NodeView, ParseTreeNode};
use crate::common::symbol_table::{eof_name, NonTerminal};
use crate::common::token_rules::TokenRuleView;
use crate::compiler::lexer::{
    kinds_of,
    patterns_of,
    refused,
    scanned,
    usable,
    Lexer,
    LexicalErrorView,
    LocatedToken,
    LocatedTokenView,
};
use crate::compiler::parser::{lemma_rejecting_run, parsed, Outcome, Parser};
use crate::compiler::recognizer::{token_at, PatternView};
use crate::generator::generator_action::{
    finished, progress, GeneratorAction, GeneratorResult, GeneratorResultView,
};
use crate::generator::grammar_rules::{grammar_rules, notation_grammar, NotationPolicy};
use crate::generator::processor::{
    mark_left_identifiers, processed, with_left_identifiers, Processor,
};
use crate::generator::token_rules::{notation_token_rules, token_rules};
use vstd::prelude::*;
use vstd::utf8::encode_utf8;

verus! {

/// Tokens that a lexer gave end with the token of the end of the input.
pub proof fn lemma_scanned_ends(
    patterns: Seq<PatternView>,
    kinds: Seq<Seq<char>>,
    text: Seq<char>,
    position: usize,
)
    ensures
        scanned(patterns, kinds, text, position) matches Ok(tokens) ==> tokens.len() > 0
            && tokens.last().token.kind == eof_name(),
    decreases encode_utf8(text).len() - position,
{
    let bytes = encode_utf8(text);
    let found = token_at(patterns, text, position);
    if position < bytes.len() && usable(found, bytes, position) && found.rule < kinds.len() {
        lemma_scanned_ends(patterns, kinds, text, found.end);
        if !found.skip {
            if let Ok(rest) = scanned(patterns, kinds, text, found.end) {
                let all = scanned(patterns, kinds, text, position)->Ok_0;
                assert(all.last() == rest.last());
            }
        }
    }
}

/// The tokens of `text` under the token rules `rules`, as the parser gets
/// them: each identifier before an equals sign retagged.
pub open spec fn tokens_of(rules: Seq<TokenRuleView>, text: Seq<char>) -> Result<
    Seq<LocatedTokenView>,
    LexicalErrorView,
> {
    match refused(rules) {
        Some(e) => Err(e),
        None => match scanned(patterns_of(rules), kinds_of(rules), text, 0) {
            Err(e) => Err(e),
            Ok(tokens) => Ok(processed(tokens)),
        },
    }
}

/// The error that a run of the driver over `tokens` ends with, where it
/// does not accept: the error for the token at which the run has stopped.
/// A run over tokens that end with the token of the end of the input stops
/// at one of them, and its last call tells of this error.
pub open spec fn rejection(tokens: Seq<LocatedTokenView>, outcome: Outcome) -> ErrorView {
    ErrorView::Syntax(
        syntax_error(
            tokens[outcome.cursor as int].token.text,
            tokens[outcome.cursor as int].span,
        ),
    )
}

/// What a generator error is among all errors.
pub open spec fn raised(error: GeneratorErrorView) -> ErrorView {
    match error {
        GeneratorErrorView::Grammar(e) => ErrorView::Grammar(e),
        GeneratorErrorView::Classification(e) => ErrorView::Classification(e),
    }
}

/// What the grammar text `text` describes: the text is turned into tokens
/// by the token rules of the notation, the tokens are parsed by the table
/// of the notation's grammar, and the rules that the parser reduces give
/// the grammar. The first thing that goes wrong on the way is the error.
pub open spec fn grammar_of(text: Seq<char>) -> Result<GeneratorResultView, ErrorView> {
    match tokens_of(notation_token_rules(), text) {
        Err(e) => Err(ErrorView::Lexical(e)),
        Ok(tokens) => match built(notation_grammar(), &NotationPolicy) {
            Err(e) => Err(ErrorView::Grammar(e)),
            Ok(table) => {
                let outcome = parsed(table, tokens);
                let held = progress(outcome.calls.drop_last());
                if !outcome.accepted {
                    Err(rejection(tokens, outcome))
                } else {
                    match finished(held.nodes, held.rules, held.failure) {
                        Err(e) => Err(raised(e)),
                        Ok(result) => Ok(result),
                    }
                }
            },
        },
    }
}

/// What a result holds: the grammar and the error by their views.
pub open spec fn grammar_view(r: Result<GeneratorResult, Error>) -> Result<
    GeneratorResultView,
    ErrorView,
> {
    match r {
        Ok(result) => Ok(result@),
        Err(e) => Err(e@),
    }
}

/// What a result holds: the tree and the error by their views.
pub open spec fn tree_view(r: Result<ParseTreeNode, Error>) -> Result<NodeView, ErrorView> {
    match r {
        Ok(tree) => Ok(tree@),
        Err(e) => Err(e@),
    }
}

/// Turns `text` into the tokens that a parser gets: those of the lexer,
/// with the identifiers before an equals sign retagged.
pub fn tokens_for(lexer: &Lexer, text: &str) -> (r: Result<Vec<LocatedToken>, Error>)
    requires
        lexer.wf(),
    ensures
        match r {
            Ok(tokens) => scanned(lexer.patterns(), lexer.kinds(), text@, 0) matches Ok(found)
                && views(tokens@) == processed(found) && tokens.len() > 0
                && tokens@.last().token.kind@ == eof_name(),
            Err(e) => scanned(lexer.patterns(), lexer.kinds(), text@, 0) matches Err(error)
                && e@ == ErrorView::Lexical(error),
        },
{
    match lexer.tokenize(text) {
        Err(e) => Err(Error::Lexical(e)),
        Ok(tokens) => {
            proof {
                lemma_scanned_ends(lexer.patterns(), lexer.kinds(), text@, 0);
            }
            let ghost found = views(tokens@);
            let ready = Processor::process(tokens);
            proof {
                let last = found.len() - 1;
                assert(views(ready@)[last] == processed(found)[last]);
                assert(views(ready@).len() == ready@.len());
                assert(ready@.last()@ == views(ready@)[last]);
            }
            Ok(ready)
        },
    }
}

/// Reads the grammar text `text`: the first pass.
///
/// # Errors
///
/// Returns the first thing that goes wrong: a place of the text where no
/// token of the notation begins; a token that cannot follow those before
/// it; or what is wrong with the rules of the text.
pub fn read_grammar(text: &str) -> (r: Result<GeneratorResult, Error>)
    ensures
        grammar_view(r) == grammar_of(text@),
{
    let rules = token_rules();
    let lexer = match Lexer::new(&rules) {
        Ok(lexer) => lexer,
        Err(e) => {
            return Err(Error::Lexical(e));
        },
    };
    let tokens = match tokens_for(&lexer, text) {
        Ok(tokens) => tokens,
        Err(e) => {
            return Err(e);
        },
    };
    let grammar = grammar_rules();
    let table = match ParseTable::new(&grammar, &NotationPolicy) {
        Ok(table) => table,
        Err(e) => {
            return Err(Error::Grammar(e));
        },
    };
    let mut parser = Parser::new(&table, GeneratorAction::new());
    let ghost outcome = parsed(table@, views(tokens@));
    proof {
        lemma_rejecting_run(table@, views(tokens@), seq![0usize], 0, usize::MAX as nat);
    }
    let parse = parser.parse(tokens);
    proof {
        assert(Seq::<Call>::empty() + outcome.calls =~= outcome.calls);
    }
    match parse {
        Err(e) => Err(Error::Syntax(e)),
        Ok(Err(GeneratorError::Grammar(e))) => Err(Error::Grammar(e)),
        Ok(Err(GeneratorError::Classification(e))) => Err(Error::Classification(e)),
        Ok(Ok(result)) => Ok(result),
    }
}

/// The lexer and the table of a language, and its start symbol.
pub struct Language {
    pub lexer: Lexer,
    pub table: ParseTable,
    pub start: NonTerminal,
}

/// What a language holds, as mathematical values.
pub ghost struct LanguageView {
    pub patterns: Seq<PatternView>,
    pub kinds: Seq<Seq<char>>,
    pub table: TableView,
    pub start: Seq<char>,
}

impl View for Language {
    type V = LanguageView;

    open spec fn view(&self) -> LanguageView {
        LanguageView {
            patterns: self.lexer.patterns(),
            kinds: self.lexer.kinds(),
            table: self.table@,
            start: self.start@,
        }
    }
}

/// The language of the token rules `rules` and the grammar `grammar`,
/// where `policy` settles the conflicts of the table. In the grammar the
/// identifier that a rule or a directive defines is the left identifier.
pub open spec fn language<P: ConflictPolicy>(
    rules: Seq<TokenRuleView>,
    grammar: GrammarRulesView,
    policy: &P,
) -> Result<LanguageView, ErrorView> {
    match refused(rules) {
        Some(e) => Err(ErrorView::Lexical(e)),
        None => match built(with_left_identifiers(grammar), policy) {
            Err(e) => Err(ErrorView::Grammar(e)),
            Ok(table) => Ok(
                LanguageView {
                    patterns: patterns_of(rules),
                    kinds: kinds_of(rules),
                    table,
                    start: grammar.start_symbol,
                },
            ),
        },
    }
}

/// What a result holds: the language and the error by their views.
pub open spec fn language_view(r: Result<Language, Error>) -> Result<LanguageView, ErrorView> {
    match r {
        Ok(made) => Ok(made@),
        Err(e) => Err(e@),
    }
}

/// The tree of `text` in the language `language`: the text is turned into
/// tokens, and the tokens are parsed with the default action for the start
/// symbol of the language.
pub open spec fn tree_of(language: LanguageView, text: Seq<char>) -> Result<NodeView, ErrorView> {
    match scanned(language.patterns, language.kinds, text, 0) {
        Err(e) => Err(ErrorView::Lexical(e)),
        Ok(tokens) => {
            let outcome = parsed(language.table, processed(tokens));
            if !outcome.accepted {
                Err(rejection(processed(tokens), outcome))
            } else {
                Ok(
                    accepted(
                        tree_nodes(
                            seq![Call::Made(language.start)] + outcome.calls.drop_last(),
                        ),
                        language.start,
                    ),
                )
            }
        },
    }
}

impl Language {
    /// Whether the lexer and the table are well formed.
    pub open spec fn wf(&self) -> bool {
        self.lexer.wf() && self.table.wf()
    }

    /// Makes the lexer and the table of the language that `result`
    /// describes: the second pass.
    ///
    /// # Errors
    ///
    /// Returns an error where a pattern of a token rule is no regular
    /// expression, or where the grammar allows no table under `policy`.
    pub fn new<P: ConflictPolicy>(result: &GeneratorResult, policy: &P) -> (r: Result<
        Language,
        Error,
    >)
        ensures
            language_view(r) == language(
                views(result.token_rules@),
                result.grammar_rules@,
                policy,
            ),
            r matches Ok(made) ==> made.wf(),
    {
        let lexer = match Lexer::new(&result.token_rules) {
            Ok(lexer) => lexer,
            Err(e) => {
                return Err(Error::Lexical(e));
            },
        };
        let grammar = mark_left_identifiers(&result.grammar_rules);
        let table = match ParseTable::new(&grammar, policy) {
            Ok(table) => table,
            Err(e) => {
                return Err(Error::Grammar(e));
            },
        };
        Ok(Language { lexer, table, start: result.grammar_rules.start_symbol.clone() })
    }

    /// Parses `text` and builds its tree with the default action.
    ///
    /// # Errors
    ///
    /// Returns an error for the first place of the text where no token
    /// begins, or for the first token that cannot follow those before it.
    pub fn parse(&self, text: &str) -> (r: Result<ParseTreeNode, Error>)
        requires
            self.wf(),
        ensures
            tree_view(r) == tree_of(self@, text@),
    {
        let tokens = match tokens_for(&self.lexer, text) {
            Ok(tokens) => tokens,
            Err(e) => {
                return Err(e);
            },
        };
        let mut parser = Parser::new(&self.table, DefaultAction::new(self.start.clone()));
        let ghost outcome = parsed(self.table@, views(tokens@));
        let ghost told = seq![Call::Made(self.start@)];
        proof {
            lemma_rejecting_run(self.table@, views(tokens@), seq![0usize], 0, usize::MAX as nat);
        }
        let parse = parser.parse(tokens);
        proof {
            let heard = told + outcome.calls;
            assert(parser.action().heard() == heard);
            if outcome.calls.len() == 0 {
                assert(heard =~= told);
                assert(heard.last() == Call::Made(self.start@));
            } else {
                assert(heard.last() == outcome.calls.last());
                assert(heard.drop_last() =~= told + outcome.calls.drop_last());
            }
            assert(heard[0] == Call::Made(self.start@));
        }
        match parse {
            Err(e) => Err(Error::Syntax(e)),
            Ok(tree) => Ok(tree),
        }
    }
}

} // verus!
