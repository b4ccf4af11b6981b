//! The action that reads a grammar off its text: it builds the parse tree,
//! collects the rules, and at the end makes the symbol table, the
//! productions and the token rules of the grammar.

use crate::common::action::{
    all_flat, build_node, built, flat, inner_of, leaf_of, lemma_reduction_keeps_flat,
    lemma_root_and_leaf_flat, push_leaf, syntax_error, unexpected, Action, Call,
};
use crate::common::error::{
    ClassificationError, ClassificationErrorView, GeneratorError, GeneratorErrorView, GrammarError,
    GrammarErrorView,
};
use crate::common::grammar_rules::{
    GrammarRules, GrammarRulesView, GrammarSymbol, GrammarSymbolView, RuleView,
};
use crate::common::name_map::position_of;
use crate::common::parse_tree::{
    symbol_text, views, NodeView, ParseError, ParseTreeNode, Span, Symbol, SymbolView,
};
use crate::common::symbol_table::{
    identity_map, lemma_identity_map, NonTerminal, SymbolTable, SymbolTableView, Terminal,
};
use crate::common::token_rules::{Rule as TokenRule, TokenRuleView, TokenRules};
use crate::compiler::lexer::Token;
use crate::generator::classification::{
    check_patterns,
    classification_error,
    defines_terminal,
    identifiers_in,
    identifiers_of,
    lemma_literal_alternatives,
    lemma_single_regex,
    literal_rules,
    literals_in,
    literals_of,
    own_rule,
    production_rules,
    production_terminals,
    push_token_rules,
    quoted,
    regexes_in,
    regexes_of,
    scan,
    Patterns,
    Production,
    ProductionView,
};
use crate::generator::lowering::{lower_expression, lowered_expression, Lowered, LoweredView};
use crate::generator::parse_tree::alternative_views;
use crate::common::text::decimal_text;
use crate::generator::patterns::{candidate, escaped, unquoted};
use crate::generator::resolution::{
    all_rules_for, resolve_all, resolve_alternatives, resolve_atoms, resolve_symbol,
};
use vstd::prelude::*;

verus! {

/// What a grammar text describes.
#[derive(Debug)]
pub struct GeneratorResult {
    /// Symbol table containing all terminals and non terminals.
    pub symbol_table: SymbolTable,
    /// Grammar rules containing productions for non terminals.
    pub grammar_rules: GrammarRules,
    /// Token rules containing regex patterns for terminals.
    pub token_rules: TokenRules,
    /// Parse tree built from the input.
    pub parse_tree: ParseTreeNode,
}

/// The grammar that a grammar text describes.
#[derive(Debug)]
pub struct Generated {
    pub symbol_table: SymbolTable,
    pub grammar_rules: GrammarRules,
    pub token_rules: TokenRules,
}

/// A generated grammar as a mathematical value.
pub ghost struct GeneratedView {
    pub symbol_table: SymbolTableView,
    pub grammar_rules: GrammarRulesView,
    pub token_rules: Seq<TokenRuleView>,
}

impl View for Generated {
    type V = GeneratedView;

    open spec fn view(&self) -> GeneratedView {
        GeneratedView {
            symbol_table: self.symbol_table@,
            grammar_rules: self.grammar_rules@,
            token_rules: views(self.token_rules@),
        }
    }
}

/// The first thing that is wrong with the patterns of one of `rules`.
pub open spec fn first_classification_error(rules: Seq<ProductionView>) -> Option<
    ClassificationErrorView,
>
    decreases rules.len(),
{
    if rules.len() == 0 {
        None
    } else {
        match first_classification_error(rules.drop_last()) {
            Some(e) => Some(e),
            None => classification_error(rules.last()),
        }
    }
}

/// The token rules that `rules` give, in the order of the rules.
pub open spec fn explicit_rules(rules: Seq<ProductionView>) -> Seq<TokenRuleView>
    decreases rules.len(),
{
    if rules.len() == 0 {
        Seq::empty()
    } else {
        explicit_rules(rules.drop_last()) + production_rules(rules.last())
    }
}

/// The terminals that `rules` give, in the order of the rules.
pub open spec fn explicit_terminals(rules: Seq<ProductionView>) -> Seq<Seq<char>>
    decreases rules.len(),
{
    if rules.len() == 0 {
        Seq::empty()
    } else {
        explicit_terminals(rules.drop_last()) + production_terminals(rules.last())
    }
}

/// The non-terminals that `rules` define, in the order of the rules.
pub open spec fn non_terminals_in(rules: Seq<ProductionView>) -> Seq<Seq<char>>
    decreases rules.len(),
{
    if rules.len() == 0 {
        Seq::empty()
    } else if defines_terminal(rules.last()) {
        non_terminals_in(rules.drop_last())
    } else {
        non_terminals_in(rules.drop_last()).push(rules.last().lhs)
    }
}

/// The identifiers on the right-hand sides of `rules`.
pub open spec fn referenced_in(rules: Seq<ProductionView>) -> Seq<Seq<char>>
    decreases rules.len(),
{
    if rules.len() == 0 {
        Seq::empty()
    } else {
        referenced_in(rules.drop_last()) + identifiers_of(rules.last().alternatives)
    }
}

/// The names of `names` that do not occur in `referenced`, in order.
pub open spec fn unreferenced(names: Seq<Seq<char>>, referenced: Seq<Seq<char>>) -> Seq<Seq<char>>
    decreases names.len(),
{
    if names.len() == 0 {
        Seq::empty()
    } else if referenced.contains(names.last()) {
        unreferenced(names.drop_last(), referenced)
    } else {
        unreferenced(names.drop_last(), referenced).push(names.last())
    }
}

/// Whether each of the first `k` candidates for `base` is taken.
pub open spec fn all_taken_below(base: Seq<char>, taken: Map<Seq<char>, Seq<char>>, k: nat) -> bool {
    forall|j: nat| j < k ==> taken.contains_key(#[trigger] candidate(base, j))
}

/// Whether the candidate `k` for `base` is the first that is not taken.
pub open spec fn is_first_free(base: Seq<char>, taken: Map<Seq<char>, Seq<char>>, k: nat) -> bool {
    !taken.contains_key(candidate(base, k)) && all_taken_below(base, taken, k)
}

/// The number of the first candidate for `base` that is not taken.
pub open spec fn first_free(base: Seq<char>, taken: Map<Seq<char>, Seq<char>>) -> nat {
    choose|k: nat| is_first_free(base, taken, k)
}

/// Whether each candidate for `base` that can be numbered is taken.
pub open spec fn exhausted(base: Seq<char>, taken: Map<Seq<char>, Seq<char>>) -> bool {
    all_taken_below(base, taken, (usize::MAX + 1) as nat)
}

/// The name that `base` gets where the names of `taken` are in use: `base`
/// itself, or `base` with the least number behind it that gives a new name.
pub open spec fn unique_name(base: Seq<char>, taken: Map<Seq<char>, Seq<char>>) -> Seq<char> {
    candidate(base, first_free(base, taken))
}

/// There is one first free candidate at most.
pub proof fn lemma_first_free(base: Seq<char>, taken: Map<Seq<char>, Seq<char>>, k: nat)
    requires
        is_first_free(base, taken, k),
    ensures
        first_free(base, taken) == k,
{
    let other = first_free(base, taken);
    assert(is_first_free(base, taken, other));
    if other < k {
        assert(taken.contains_key(candidate(base, other)));
    } else if k < other {
        assert(taken.contains_key(candidate(base, k)));
    }
}

/// The token rule of a terminal whose tokens are dropped.
pub open spec fn skipped_rule(kind: Seq<char>, regex: Seq<char>) -> TokenRuleView {
    TokenRuleView { kind, regex, skip: true }
}

/// The grammar that `rules` describe, which hold one rule for each
/// left-hand side, or what is wrong with them.
///
/// Each rule defines a terminal or a non-terminal, by its patterns. The
/// terminals are the literals, the names that rules define by patterns,
/// and two more for comments and white space, which get names of their
/// own. The productions are those of the rules of non-terminals. The start
/// symbol is the one non-terminal that occurs on no right-hand side.
pub open spec fn generated(rules: Seq<ProductionView>) -> Result<GeneratedView, GeneratorErrorView> {
    let explicit = identity_map(explicit_terminals(rules));
    let comment = unique_name("Comment"@, explicit);
    let with_comment = explicit.insert(comment, comment);
    let whitespace = unique_name("Whitespace"@, with_comment);
    let terminals = with_comment.insert(whitespace, whitespace);
    let non_terminals = identity_map(non_terminals_in(rules));
    let table = SymbolTableView {
        non_terminals,
        terminals,
        non_terminal_names: non_terminals,
        terminal_names: terminals,
    };
    let starts = unreferenced(non_terminals_in(rules), referenced_in(rules));
    match first_classification_error(rules) {
        Some(e) => Err(GeneratorErrorView::Classification(e)),
        None => if exhausted("Comment"@, explicit) || exhausted("Whitespace"@, with_comment) {
            Err(GeneratorErrorView::Grammar(GrammarErrorView::NamesExhausted))
        } else {
            match resolve_all(rules, table) {
                Err(name) => Err(GeneratorErrorView::Grammar(GrammarErrorView::MissingSymbol(name))),
                Ok(productions) => if starts.len() == 0 {
                    Err(GeneratorErrorView::Grammar(GrammarErrorView::NoStartSymbol))
                } else if starts.len() > 1 {
                    Err(GeneratorErrorView::Grammar(GrammarErrorView::AmbiguousStart(starts)))
                } else {
                    Ok(
                        GeneratedView {
                            symbol_table: table,
                            grammar_rules: GrammarRulesView {
                                start_symbol: starts[0],
                                rules: productions,
                            },
                            token_rules: explicit_rules(rules).push(
                                skipped_rule(comment, "#.*"@),
                            ).push(skipped_rule(whitespace, r"\s+"@)),
                        },
                    )
                },
            }
        },
    }
}

/// What a result holds: the grammar and the error by their views.
pub open spec fn generated_result(r: Result<Generated, GeneratorError>) -> Result<
    GeneratedView,
    GeneratorErrorView,
> {
    match r {
        Ok(grammar) => Ok(grammar@),
        Err(e) => Err(e@),
    }
}

/// Insert a terminal into the symbol table, ensuring uniqueness by appending a number if necessary.
///
/// Returns the terminal, or `None` where every name that can be numbered is
/// in use; the table is then left as it was.
pub fn insert_unique(symbol_table: &mut SymbolTable, base: &str) -> (r: Option<Terminal>)
    requires
        old(symbol_table).wf(),
    ensures
        final(symbol_table).wf(),
        final(symbol_table)@.non_terminals == old(symbol_table)@.non_terminals,
        final(symbol_table)@.non_terminal_names == old(symbol_table)@.non_terminal_names,
        match r {
            Some(terminal) => {
                &&& !exhausted(base@, old(symbol_table)@.terminals)
                &&& terminal@ == unique_name(base@, old(symbol_table)@.terminals)
                &&& final(symbol_table)@.terminals == old(symbol_table)@.terminals.insert(
                    terminal@,
                    terminal@,
                )
                &&& final(symbol_table)@.terminal_names
                    == old(symbol_table)@.terminal_names.insert(terminal@, terminal@)
            },
            None => exhausted(base@, old(symbol_table)@.terminals) && *final(symbol_table) == *old(
                symbol_table,
            ),
        },
{
    let mut name = String::from_str(base);
    let mut counter: usize = 0;
    let ghost taken = symbol_table@.terminals;
    loop
        invariant
            symbol_table.wf(),
            *symbol_table == *old(symbol_table),
            taken == symbol_table@.terminals,
            name@ == candidate(base@, counter as nat),
            all_taken_below(base@, taken, counter as nat),
        decreases usize::MAX - counter,
    {
        if symbol_table.get_terminal_id(name.as_str()).is_none() {
            proof {
                lemma_first_free(base@, taken, counter as nat);
                assert(!exhausted(base@, taken)) by {
                    if exhausted(base@, taken) {
                        assert(taken.contains_key(candidate(base@, counter as nat)));
                    }
                }
            }
            let terminal = symbol_table.insert_terminal(name);
            return Some(terminal);
        }
        if counter == usize::MAX {
            assert(exhausted(base@, taken)) by {
                assert forall|j: nat| j < (usize::MAX + 1) as nat implies taken.contains_key(
                    #[trigger] candidate(base@, j),
                ) by {
                    if j == counter as nat {
                    }
                }
            }
            return None;
        }
        counter += 1;
        name = String::from_str(base);
        name.append(decimal_text(counter).as_str());
    }
}

/// Moves the names of `more` to the end of `names`.
fn append_names(names: &mut Vec<String>, more: Vec<String>)
    ensures
        views(final(names)@) == views(old(names)@) + views(more@),
{
    let mut rest = more;
    names.append(&mut rest);
    assert(views(names@) =~= views(old(names)@) + views(more@));
}

/// The names of `names` that do not occur in `referenced`, in order.
fn select_unreferenced(names: &Vec<String>, referenced: &Vec<String>) -> (r: Vec<String>)
    ensures
        views(r@) == unreferenced(views(names@), views(referenced@)),
{
    let ghost shown = views(names@);
    let ghost others = views(referenced@);
    let mut starts: Vec<String> = Vec::new();
    let mut i: usize = 0;
    assert(views(starts@) =~= unreferenced(shown.take(0), others));
    while i < names.len()
        invariant
            i <= names.len(),
            shown == views(names@),
            others == views(referenced@),
            views(starts@) == unreferenced(shown.take(i as int), others),
        decreases names.len() - i,
    {
        proof {
            assert(shown.take(i + 1).drop_last() =~= shown.take(i as int));
            assert(shown.take(i + 1).last() == names@[i as int]@);
        }
        let ghost before = views(starts@);
        match position_of(referenced, names[i].as_str()) {
            Some(at) => {
                assert(others[at as int] == names@[i as int]@);
            },
            None => {
                assert(!others.contains(names@[i as int]@)) by {
                    if others.contains(names@[i as int]@) {
                        let k = choose|k: int|
                            0 <= k < others.len() && others[k] == names@[i as int]@;
                        assert(referenced@[k]@ == names@[i as int]@);
                    }
                }
                starts.push(names[i].clone());
                assert(views(starts@) =~= before.push(names@[i as int]@));
            },
        }
        i += 1;
    }
    assert(shown.take(i as int) =~= shown);
    starts
}

/// What the rules of a grammar text give before the symbols are looked up.
struct Collected {
    terminals: Vec<String>,
    non_terminals: Vec<String>,
    referenced: Vec<String>,
    terminal: Vec<bool>,
    token_rules: Vec<TokenRule>,
    error: Option<ClassificationError>,
}

/// What an error that may be there holds.
spec fn error_view(error: Option<ClassificationError>) -> Option<
    ClassificationErrorView,
> {
    match error {
        Some(e) => Some(e@),
        None => None,
    }
}

/// Goes through the rules once: sorts their atoms, tells terminals from
/// non-terminals, and makes the token rules.
fn collect(rules: &Vec<Production>) -> (r: Collected)
    ensures
        views(r.terminals@) == explicit_terminals(views(rules@)),
        views(r.non_terminals@) == non_terminals_in(views(rules@)),
        views(r.referenced@) == referenced_in(views(rules@)),
        views(r.token_rules@) == explicit_rules(views(rules@)),
        error_view(r.error) == first_classification_error(views(rules@)),
        r.terminal.len() == rules.len(),
        forall|k: int|
            0 <= k < rules.len() ==> r.terminal@[k] == defines_terminal(#[trigger] rules@[k]@),
{
    let ghost shown = views(rules@);
    let mut terminals: Vec<String> = Vec::new();
    let mut non_terminals: Vec<String> = Vec::new();
    let mut referenced: Vec<String> = Vec::new();
    let mut terminal: Vec<bool> = Vec::new();
    let mut token_rules: Vec<TokenRule> = Vec::new();
    let mut error: Option<ClassificationError> = None;
    let mut i: usize = 0;
    proof {
        assert(views(terminals@) =~= explicit_terminals(shown.take(0)));
        assert(views(non_terminals@) =~= non_terminals_in(shown.take(0)));
        assert(views(referenced@) =~= referenced_in(shown.take(0)));
        assert(views(token_rules@) =~= explicit_rules(shown.take(0)));
    }
    while i < rules.len()
        invariant
            i <= rules.len(),
            shown == views(rules@),
            views(terminals@) == explicit_terminals(shown.take(i as int)),
            views(non_terminals@) == non_terminals_in(shown.take(i as int)),
            views(referenced@) == referenced_in(shown.take(i as int)),
            views(token_rules@) == explicit_rules(shown.take(i as int)),
            error_view(error) == first_classification_error(shown.take(i as int)),
            terminal.len() == i,
            forall|k: int| 0 <= k < i ==> terminal@[k] == defines_terminal(#[trigger] rules@[k]@),
        decreases rules.len() - i,
    {
        let rule = &rules[i];
        proof {
            assert(shown.take(i + 1).drop_last() =~= shown.take(i as int));
            assert(shown.take(i + 1).last() == rule@);
        }
        let patterns = scan(&rule.alternatives);
        if error.is_none() {
            match check_patterns(rule, &patterns) {
                Ok(_) => {},
                Err(e) => {
                    error = Some(e);
                },
            }
        }
        push_token_rules(&mut token_rules, rule, &patterns);
        let is_terminal = !rule.lowered && patterns.identifiers.len() == 0;
        let Patterns { literals, regexes: _, identifiers } = patterns;
        append_names(&mut terminals, literals);
        let ghost named = views(terminals@);
        let ghost known = views(non_terminals@);
        if is_terminal {
            terminals.push(rule.lhs.clone());
            assert(views(terminals@) =~= named.push(rule.lhs@));
        } else {
            non_terminals.push(rule.lhs.clone());
            assert(views(non_terminals@) =~= known.push(rule.lhs@));
        }
        append_names(&mut referenced, identifiers);
        terminal.push(is_terminal);
        proof {
            assert(views(terminals@) =~= explicit_terminals(shown.take(i as int))
                + production_terminals(rule@));
        }
        i += 1;
    }
    assert(shown.take(i as int) =~= shown);
    Collected { terminals, non_terminals, referenced, terminal, token_rules, error }
}

/// The action that reads a grammar off its text.
pub struct GeneratorAction {
    /// The node stack used to build the parse tree.
    node_stack: Vec<ParseTreeNode>,
    /// Productions collected during parsing, in the order in which their
    /// left-hand sides first came.
    productions: Vec<Production>,
    /// What was wrong with the first rule that could not be read.
    failure: Option<String>,
    /// The number of the next option or repetition.
    fresh: usize,
    heard: Ghost<Seq<Call>>,
}

/// Whether `symbol` names a non-terminal of the notation that gets no node
/// of its own in the tree of a grammar text.
pub open spec fn is_grouping(symbol: Seq<char>) -> bool {
    symbol == "Grammar"@ || symbol == "GrammarRepetition"@ || symbol == "Atom"@
}

/// The place of the rule of `lhs` among `rules`, or their number where
/// there is none.
pub open spec fn place_of(rules: Seq<ProductionView>, lhs: Seq<char>) -> int
    decreases rules.len(),
{
    if rules.len() == 0 {
        0
    } else if rules[0].lhs == lhs {
        0
    } else {
        1 + place_of(rules.drop_first(), lhs)
    }
}

/// `rules` with the alternatives added to the rule of `lhs`; where there is
/// none yet, it comes last, and is lowered or not as `lowered` says.
pub open spec fn added(
    rules: Seq<ProductionView>,
    lhs: Seq<char>,
    alternatives: Seq<Seq<SymbolView>>,
    lowered: bool,
) -> Seq<ProductionView> {
    let at = place_of(rules, lhs);
    if 0 <= at < rules.len() {
        rules.update(
            at,
            ProductionView {
                lhs,
                alternatives: rules[at].alternatives + alternatives,
                lowered: rules[at].lowered,
            },
        )
    } else {
        rules.push(ProductionView { lhs, alternatives, lowered })
    }
}

/// `rules` with each rule of `more` added in turn.
pub open spec fn added_all(rules: Seq<ProductionView>, more: Seq<ProductionView>) -> Seq<
    ProductionView,
>
    decreases more.len(),
{
    if more.len() == 0 {
        rules
    } else {
        added(
            added_all(rules, more.drop_last()),
            more.last().lhs,
            more.last().alternatives,
            more.last().lowered,
        )
    }
}

/// Whether no two of `rules` have the same left-hand side.
pub open spec fn one_rule_each(rules: Seq<ProductionView>) -> bool {
    forall|i: int, j: int|
        0 <= i < j < rules.len() ==> (#[trigger] rules[i]).lhs != (#[trigger] rules[j]).lhs
}

/// The place of the rule of `lhs` is that of a rule of `lhs`, and where it
/// lies behind the rules, none of them is of `lhs`.
pub proof fn lemma_place_of(rules: Seq<ProductionView>, lhs: Seq<char>)
    ensures
        0 <= place_of(rules, lhs) <= rules.len(),
        place_of(rules, lhs) < rules.len() ==> rules[place_of(rules, lhs)].lhs == lhs,
        place_of(rules, lhs) == rules.len() ==> forall|i: int|
            0 <= i < rules.len() ==> (#[trigger] rules[i]).lhs != lhs,
    decreases rules.len(),
{
    if rules.len() > 0 && rules[0].lhs != lhs {
        let rest = rules.drop_first();
        lemma_place_of(rest, lhs);
        if place_of(rest, lhs) == rest.len() {
            assert forall|i: int| 0 <= i < rules.len() implies (#[trigger] rules[i]).lhs != lhs by {
                if i > 0 {
                    assert(rules[i] == rest[i - 1]);
                }
            }
        }
    }
}

/// Rules that are added leave one rule for each left-hand side.
pub proof fn lemma_added_one_each(
    rules: Seq<ProductionView>,
    lhs: Seq<char>,
    alternatives: Seq<Seq<SymbolView>>,
    lowered: bool,
)
    requires
        one_rule_each(rules),
    ensures
        one_rule_each(added(rules, lhs, alternatives, lowered)),
{
    lemma_place_of(rules, lhs);
    let after = added(rules, lhs, alternatives, lowered);
    let at = place_of(rules, lhs);
    assert forall|i: int, j: int| 0 <= i < j < after.len() implies (#[trigger] after[i]).lhs != (
    #[trigger] after[j]).lhs by {
        if at < rules.len() {
            assert(after[i].lhs == rules[i].lhs);
            assert(after[j].lhs == rules[j].lhs);
        } else if j < rules.len() {
            assert(after[i] == rules[i]);
            assert(after[j] == rules[j]);
        } else {
            assert(after[i] == rules[i]);
        }
    }
}

/// Rules that are added in turn leave one rule for each left-hand side.
pub proof fn lemma_added_all_one_each(rules: Seq<ProductionView>, more: Seq<ProductionView>)
    requires
        one_rule_each(rules),
    ensures
        one_rule_each(added_all(rules, more)),
    decreases more.len(),
{
    if more.len() > 0 {
        lemma_added_all_one_each(rules, more.drop_last());
        lemma_added_one_each(
            added_all(rules, more.drop_last()),
            more.last().lhs,
            more.last().alternatives,
            more.last().lowered,
        );
    }
}

/// What the node of a rule of the grammar text gives, where `next` is the
/// number of the next construct: the alternatives of its expression,
/// lowered within the rule of its identifier; or why it cannot be read.
pub open spec fn rule_read(node: NodeView, next: nat) -> Result<LoweredView, Seq<char>> {
    if node.children().len() != 3 {
        Err("Rule does not hold an identifier, a sign and an expression"@)
    } else {
        lowered_expression(node.children()[2], node.children()[0].lexeme(), next)
    }
}

/// The rules after a rule of the grammar text is reduced whose node is
/// `node`: the alternatives of its expression are added to the rule of its
/// identifier, and after it come the rules of the options and repetitions
/// within it. Where the node cannot be read, the rules stay.
pub open spec fn noted(rules: Seq<ProductionView>, node: NodeView, next: nat) -> Seq<
    ProductionView,
> {
    match rule_read(node, next) {
        Ok(lowered) => added_all(
            added(rules, node.children()[0].lexeme(), lowered.alternatives, false),
            lowered.extra,
        ),
        Err(_) => rules,
    }
}

/// The number of the next construct after a rule of the grammar text is
/// reduced whose node is `node`.
pub open spec fn numbered(node: NodeView, next: nat) -> nat {
    match rule_read(node, next) {
        Ok(lowered) => lowered.next,
        Err(_) => next,
    }
}

/// Why the node of a rule of the grammar text cannot be read, if it cannot.
pub open spec fn unreadable(node: NodeView, next: nat) -> Option<Seq<char>> {
    match rule_read(node, next) {
        Ok(_) => None,
        Err(message) => Some(message),
    }
}

/// The stack of nodes after a reduction by a production of `symbol` with
/// `length` symbols on its right-hand side.
pub open spec fn grammar_tree_reduced(stack: Seq<NodeView>, symbol: Seq<char>, length: nat) -> Seq<
    NodeView,
> {
    if is_grouping(symbol) {
        stack
    } else {
        built(stack, symbol, length)
    }
}

/// The place of the first rule of `rules` whose left-hand side reads `lhs`.
fn find_rule(rules: &Vec<Production>, lhs: &String) -> (r: Option<usize>)
    ensures
        match r {
            Some(at) => at < rules.len() && at == place_of(views(rules@), lhs@)
                && rules@[at as int].lhs@ == lhs@,
            None => place_of(views(rules@), lhs@) == rules.len(),
        },
{
    let ghost shown = views(rules@);
    let mut i: usize = 0;
    assert(shown.skip(0) =~= shown);
    while i < rules.len()
        invariant
            i <= rules.len(),
            shown == views(rules@),
            place_of(shown, lhs@) == i + place_of(shown.skip(i as int), lhs@),
        decreases rules.len() - i,
    {
        proof {
            assert(shown.skip(i as int)[0] == rules@[i as int]@);
            assert(shown.skip(i as int).drop_first() =~= shown.skip(i + 1));
        }
        if rules[i].lhs == *lhs {
            return Some(i);
        }
        i += 1;
    }
    assert(shown.skip(i as int) =~= Seq::<ProductionView>::empty());
    None
}

/// Adds the alternatives `rhs` to the rule of `lhs` among `rules`.
pub fn add_rule(rules: &mut Vec<Production>, lhs: String, rhs: Vec<Vec<Symbol>>, lowered: bool)
    ensures
        views(final(rules)@) == added(views(old(rules)@), lhs@, alternative_views(rhs@), lowered),
{
    let ghost before = views(rules@);
    match find_rule(rules, &lhs) {
        Some(at) => {
            let mut more = rhs;
            let ghost stored = rules@;
            let ghost held = alternative_views(stored[at as int].alternatives@);
            rules[at].alternatives.append(&mut more);
            proof {
                let now = rules@;
                assert(now.len() == stored.len());
                assert(now[at as int].lhs == stored[at as int].lhs);
                assert(now[at as int].lowered == stored[at as int].lowered);
                assert(now[at as int].alternatives@ == stored[at as int].alternatives@ + rhs@);
                assert(alternative_views(now[at as int].alternatives@) =~= held
                    + alternative_views(rhs@));
                assert forall|k: int| 0 <= k < now.len() && k != at implies now[k] == stored[k] by {}
                assert(views(now) =~= before.update(
                    at as int,
                    ProductionView {
                        lhs: lhs@,
                        alternatives: held + alternative_views(rhs@),
                        lowered: stored[at as int].lowered,
                    },
                ));
            }
        },
        None => {
            rules.push(Production { lhs, alternatives: rhs, lowered });
            assert(views(rules@) =~= added(before, lhs@, alternative_views(rhs@), lowered));
        },
    }
}

/// Adds each rule of `more` to `rules` in turn.
pub fn add_rules(rules: &mut Vec<Production>, more: Vec<Production>)
    ensures
        views(final(rules)@) == added_all(views(old(rules)@), views(more@)),
{
    let ghost before = views(rules@);
    let ghost all = views(more@);
    let mut pending = more;
    let mut stack: Vec<Production> = Vec::new();
    assert(views(pending@) =~= all.take(pending.len() as int));
    while pending.len() > 0
        invariant
            stack.len() + pending.len() == all.len(),
            forall|k: int| 0 <= k < stack.len() ==> (#[trigger] stack@[k])@ == all[all.len() - 1 - k],
            views(pending@) == all.take(pending.len() as int),
        decreases pending.len(),
    {
        let ghost held = views(pending@);
        let rule = pending.pop().unwrap();
        assert(rule@ == held[held.len() - 1]);
        stack.push(rule);
        assert(views(pending@) =~= all.take(pending.len() as int));
    }
    let ghost mut done: int = 0;
    assert(all.take(0) =~= Seq::<ProductionView>::empty());
    while stack.len() > 0
        invariant
            0 <= done,
            done + stack.len() == all.len(),
            forall|k: int| 0 <= k < stack.len() ==> (#[trigger] stack@[k])@ == all[all.len() - 1 - k],
            views(rules@) == added_all(before, all.take(done)),
        decreases stack.len(),
    {
        let rule = stack.pop().unwrap();
        assert(rule@ == all[done]);
        let Production { lhs, alternatives, lowered } = rule;
        proof {
            assert(all.take(done + 1).drop_last() =~= all.take(done));
            assert(all.take(done + 1).last() == all[done]);
        }
        add_rule(rules, lhs, alternatives, lowered);
        proof {
            done = done + 1;
        }
    }
    assert(all.take(done) =~= all);
}

impl GeneratorAction {
    /// The nodes built so far that have no parent yet, bottom first.
    pub closed spec fn nodes(&self) -> Seq<NodeView> {
        views(self.node_stack@)
    }

    /// The rules collected so far.
    pub closed spec fn rules(&self) -> Seq<ProductionView> {
        views(self.productions@)
    }

    /// The number of the next option or repetition.
    pub closed spec fn next(&self) -> nat {
        self.fresh as nat
    }

    /// What was wrong with the first rule that could not be read.
    pub closed spec fn failure(&self) -> Option<Seq<char>> {
        match self.failure {
            Some(message) => Some(message@),
            None => None,
        }
    }

    /// The action before the first token.
    pub fn new() -> (r: Self)
        ensures
            r.consistent(),
            r.heard() == Seq::<Call>::empty(),
            r.nodes() == Seq::<NodeView>::empty(),
            r.rules() == Seq::<ProductionView>::empty(),
            r.failure() is None,
            r.next() == 0,
    {
        let r = GeneratorAction {
            node_stack: Vec::new(),
            productions: Vec::new(),
            failure: None,
            fresh: 0,
            heard: Ghost(Seq::empty()),
        };
        assert(r.nodes() =~= Seq::<NodeView>::empty());
        assert(r.rules() =~= Seq::<ProductionView>::empty());
        r
    }

    /// Adds the alternatives `rhs` to the rule of `lhs`.
    pub fn add_production(&mut self, lhs: String, rhs: Vec<Vec<Symbol>>)
        ensures
            final(self).heard() == old(self).heard(),
            final(self).nodes() == old(self).nodes(),
            final(self).failure() == old(self).failure(),
            final(self).next() == old(self).next(),
            final(self).rules() == added(old(self).rules(), lhs@, alternative_views(rhs@), false),
    {
        add_rule(&mut self.productions, lhs, rhs, false);
    }

    /// The grammar that the given rules describe: its symbol table, its
    /// productions and its token rules. There is one rule for each
    /// left-hand side.
    pub fn generate_result(rules: &Vec<Production>) -> (r: Result<Generated, GeneratorError>)
        requires
            one_rule_each(views(rules@)),
        ensures
            generated_result(r) == generated(views(rules@)),
    {
        let ghost shown = views(rules@);
        let collected = collect(rules);
        let Collected { terminals, non_terminals, referenced, terminal, token_rules, error } =
            collected;
        if let Some(e) = error {
            return Err(GeneratorError::Classification(e));
        }
        let mut table = SymbolTable::of_names(&terminals, &non_terminals);
        let comment = match insert_unique(&mut table, "Comment") {
            Some(terminal) => terminal,
            None => {
                return Err(GeneratorError::Grammar(GrammarError::NamesExhausted));
            },
        };
        let whitespace = match insert_unique(&mut table, "Whitespace") {
            Some(terminal) => terminal,
            None => {
                return Err(GeneratorError::Grammar(GrammarError::NamesExhausted));
            },
        };
        let mut token_rules = token_rules;
        let ghost explicit = views(token_rules@);
        token_rules.push(TokenRule { kind: comment, regex: String::from_str("#.*"), skip: true });
        token_rules.push(
            TokenRule { kind: whitespace, regex: String::from_str(r"\s+"), skip: true },
        );
        assert(views(token_rules@) =~= explicit.push(skipped_rule(comment@, "#.*"@)).push(
            skipped_rule(whitespace@, r"\s+"@),
        ));
        let productions = match all_rules_for(rules, &terminal, &table) {
            Ok(productions) => productions,
            Err(name) => {
                return Err(GeneratorError::Grammar(GrammarError::MissingSymbol(name)));
            },
        };
        let mut starts = select_unreferenced(&non_terminals, &referenced);
        if starts.len() == 0 {
            Err(GeneratorError::Grammar(GrammarError::NoStartSymbol))
        } else if starts.len() > 1 {
            Err(GeneratorError::Grammar(GrammarError::AmbiguousStart(starts)))
        } else {
            let start = starts.pop().unwrap();
            Ok(
                Generated {
                    symbol_table: table,
                    grammar_rules: GrammarRules {
                        start_symbol: NonTerminal(start),
                        rules: productions,
                    },
                    token_rules,
                },
            )
        }
    }
}

/// What a grammar text describes, as a mathematical value.
pub ghost struct GeneratorResultView {
    pub symbol_table: SymbolTableView,
    pub grammar_rules: GrammarRulesView,
    pub token_rules: Seq<TokenRuleView>,
    pub parse_tree: NodeView,
}

impl View for GeneratorResult {
    type V = GeneratorResultView;

    open spec fn view(&self) -> GeneratorResultView {
        GeneratorResultView {
            symbol_table: self.symbol_table@,
            grammar_rules: self.grammar_rules@,
            token_rules: views(self.token_rules@),
            parse_tree: self.parse_tree@,
        }
    }
}

impl GeneratorResult {
    #[must_use]
    pub fn new(
        symbol_table: SymbolTable,
        grammar_rules: GrammarRules,
        token_rules: TokenRules,
        parse_tree: ParseTreeNode,
    ) -> (r: Self)
        ensures
            r == (GeneratorResult { symbol_table, grammar_rules, token_rules, parse_tree }),
    {
        Self { symbol_table, grammar_rules, token_rules, parse_tree }
    }
}

/// What the action returns at the end of a grammar text: the grammar that
/// the collected rules describe, with the parse tree of the text; or the
/// reason why a rule could not be read; or what is wrong with the rules.
pub open spec fn finished(
    nodes: Seq<NodeView>,
    rules: Seq<ProductionView>,
    failure: Option<Seq<char>>,
) -> Result<GeneratorResultView, GeneratorErrorView> {
    match failure {
        Some(message) => Err(GeneratorErrorView::Grammar(GrammarErrorView::MalformedRule(message))),
        None => match generated(rules) {
            Err(e) => Err(e),
            Ok(grammar) => Ok(
                GeneratorResultView {
                    symbol_table: grammar.symbol_table,
                    grammar_rules: grammar.grammar_rules,
                    token_rules: grammar.token_rules,
                    parse_tree: inner_of("Grammar"@, nodes),
                },
            ),
        },
    }
}

/// What a result holds: the grammar and the error by their views.
pub open spec fn finished_result(r: Result<GeneratorResult, GeneratorError>) -> Result<
    GeneratorResultView,
    GeneratorErrorView,
> {
    match r {
        Ok(result) => Ok(result@),
        Err(e) => Err(e@),
    }
}

/// What the action holds: the nodes without a parent, the rules collected
/// so far, and what was wrong with the first rule that could not be read.
pub ghost struct Progress {
    pub nodes: Seq<NodeView>,
    pub rules: Seq<ProductionView>,
    pub failure: Option<Seq<char>>,
    pub next: nat,
}

/// What the action holds after `calls`. A token gives a leaf. A reduction
/// builds the tree; the reduction of a rule of the grammar text also adds
/// the alternatives of the rule, unless a rule before it could not be read.
pub open spec fn progress(calls: Seq<Call>) -> Progress
    decreases calls.len(),
{
    if calls.len() == 0 {
        Progress { nodes: Seq::empty(), rules: Seq::empty(), failure: None, next: 0 }
    } else {
        let before = progress(calls.drop_last());
        match calls.last() {
            Call::Shift(token) => Progress {
                nodes: before.nodes.push(leaf_of(token.kind, token.text, token.start, token.end)),
                rules: before.rules,
                failure: before.failure,
                next: before.next,
            },
            Call::Reduce(symbol, rhs) => {
                let nodes = grammar_tree_reduced(before.nodes, symbol, rhs.len());
                if symbol == "Rule"@ && before.failure is None {
                    Progress {
                        nodes,
                        rules: noted(before.rules, nodes.last(), before.next),
                        failure: unreadable(nodes.last(), before.next),
                        next: numbered(nodes.last(), before.next),
                    }
                } else {
                    Progress {
                        nodes,
                        rules: before.rules,
                        failure: before.failure,
                        next: before.next,
                    }
                }
            },
            Call::Accept => Progress {
                nodes: Seq::empty(),
                rules: Seq::empty(),
                failure: None,
                next: 0,
            },
            _ => before,
        }
    }
}

/// Whatever the action is told, it holds one rule for each left-hand side:
/// the alternatives of rules of one name are taken together.
pub proof fn lemma_one_rule_each(calls: Seq<Call>)
    ensures
        one_rule_each(progress(calls).rules),
    decreases calls.len(),
{
    if calls.len() > 0 {
        lemma_one_rule_each(calls.drop_last());
        let before = progress(calls.drop_last());
        if let Call::Reduce(symbol, rhs) = calls.last() {
            let nodes = grammar_tree_reduced(before.nodes, symbol, rhs.len());
            if symbol == "Rule"@ && before.failure is None {
                if let Ok(lowered) = rule_read(nodes.last(), before.next) {
                    let lhs = nodes.last().children()[0].lexeme();
                    lemma_added_one_each(before.rules, lhs, lowered.alternatives, false);
                    lemma_added_all_one_each(
                        added(before.rules, lhs, lowered.alternatives, false),
                        lowered.extra,
                    );
                }
            }
        }
    }
}

/// Whatever the action is told, the nodes that it holds are flat, and so is
/// the parse tree that it returns with the grammar: no list holds a list of
/// its own kind as a child.
pub proof fn lemma_grammar_tree_is_flat(calls: Seq<Call>)
    ensures
        all_flat(progress(calls).nodes),
        flat(inner_of("Grammar"@, progress(calls).nodes)),
    decreases calls.len(),
{
    if calls.len() > 0 {
        lemma_grammar_tree_is_flat(calls.drop_last());
        let before = progress(calls.drop_last()).nodes;
        match calls.last() {
            Call::Shift(token) => {
                lemma_root_and_leaf_flat(before, token.kind, token.text, token.start, token.end);
            },
            Call::Reduce(symbol, rhs) => {
                lemma_reduction_keeps_flat(before, symbol, rhs.len());
            },
            _ => {},
        }
    }
    let nodes = progress(calls).nodes;
    lemma_root_and_leaf_flat(nodes, Seq::empty(), Seq::empty(), 0, 0);
}

/// A grammar text without rules describes no grammar: there is no start
/// symbol.
pub proof fn lemma_empty_grammar()
    ensures
        generated(Seq::<ProductionView>::empty()) == Err::<GeneratedView, GeneratorErrorView>(
            GeneratorErrorView::Grammar(GrammarErrorView::NoStartSymbol),
        ),
{
    let rules = Seq::<ProductionView>::empty();
    let explicit = identity_map(explicit_terminals(rules));
    assert(explicit =~= Map::<Seq<char>, Seq<char>>::empty());
    assert(!exhausted("Comment"@, explicit)) by {
        if exhausted("Comment"@, explicit) {
            assert(explicit.contains_key(candidate("Comment"@, 0)));
        }
    }
    assert(is_first_free("Comment"@, explicit, 0));
    lemma_first_free("Comment"@, explicit, 0);
    let comment = unique_name("Comment"@, explicit);
    assert(comment == "Comment"@);
    let with_comment = explicit.insert(comment, comment);
    reveal_strlit("Comment");
    reveal_strlit("Whitespace");
    assert("Comment"@.len() == 7);
    assert("Whitespace"@.len() == 10);
    assert(!with_comment.contains_key(candidate("Whitespace"@, 0)));
    assert(!exhausted("Whitespace"@, with_comment)) by {
        if exhausted("Whitespace"@, with_comment) {
            assert(with_comment.contains_key(candidate("Whitespace"@, 0)));
        }
    }
}

/// Where each non-terminal of a grammar text occurs on some right-hand
/// side, the text describes no grammar: no non-terminal is left to start
/// from.
pub proof fn lemma_no_start(rules: Seq<ProductionView>)
    requires
        forall|i: int|
            0 <= i < non_terminals_in(rules).len() ==> referenced_in(rules).contains(
                #[trigger] non_terminals_in(rules)[i],
            ),
    ensures
        unreferenced(non_terminals_in(rules), referenced_in(rules)).len() == 0,
        generated(rules) is Err,
        generated(rules) matches Err(GeneratorErrorView::Grammar(e)) ==> e
            is NamesExhausted || e is MissingSymbol || e is NoStartSymbol,
{
    lemma_unreferenced_none(non_terminals_in(rules), referenced_in(rules));
}

/// Where each of `names` occurs in `referenced`, none of them is
/// unreferenced.
pub proof fn lemma_unreferenced_none(names: Seq<Seq<char>>, referenced: Seq<Seq<char>>)
    requires
        forall|i: int| 0 <= i < names.len() ==> referenced.contains(#[trigger] names[i]),
    ensures
        unreferenced(names, referenced).len() == 0,
    decreases names.len(),
{
    if names.len() > 0 {
        assert(referenced.contains(names[names.len() - 1]));
        assert forall|i: int| 0 <= i < names.drop_last().len() implies referenced.contains(
            #[trigger] names.drop_last()[i],
        ) by {
            assert(names.drop_last()[i] == names[i]);
        }
        lemma_unreferenced_none(names.drop_last(), referenced);
    }
}

/// What a rule gives is among what the rules give: its terminals are
/// among the terminals, and its token rules among the token rules.
pub proof fn lemma_rule_is_counted(rules: Seq<ProductionView>, at: int)
    requires
        0 <= at < rules.len(),
    ensures
        forall|k: int|
            0 <= k < production_terminals(rules[at]).len() ==> explicit_terminals(rules).contains(
                #[trigger] production_terminals(rules[at])[k],
            ),
        forall|k: int|
            0 <= k < production_rules(rules[at]).len() ==> explicit_rules(rules).contains(
                #[trigger] production_rules(rules[at])[k],
            ),
    decreases rules.len(),
{
    let init = rules.drop_last();
    let names = explicit_terminals(rules);
    let token_rules = explicit_rules(rules);
    if at < rules.len() - 1 {
        lemma_rule_is_counted(init, at);
        assert(init[at] == rules[at]);
        assert forall|k: int| 0 <= k < production_terminals(rules[at]).len() implies names.contains(
            #[trigger] production_terminals(rules[at])[k],
        ) by {
            let name = production_terminals(rules[at])[k];
            assert(explicit_terminals(init).contains(name));
            let i = choose|i: int|
                0 <= i < explicit_terminals(init).len() && explicit_terminals(init)[i] == name;
            assert(names[i] == name);
        }
        assert forall|k: int| 0 <= k < production_rules(rules[at]).len() implies token_rules.contains(
            #[trigger] production_rules(rules[at])[k],
        ) by {
            let rule = production_rules(rules[at])[k];
            assert(explicit_rules(init).contains(rule));
            let i = choose|i: int|
                0 <= i < explicit_rules(init).len() && explicit_rules(init)[i] == rule;
            assert(token_rules[i] == rule);
        }
    } else {
        assert(rules[at] == rules.last());
        assert forall|k: int| 0 <= k < production_terminals(rules[at]).len() implies names.contains(
            #[trigger] production_terminals(rules[at])[k],
        ) by {
            assert(names[explicit_terminals(init).len() + k] == production_terminals(rules[at])[k]);
        }
        assert forall|k: int| 0 <= k < production_rules(rules[at]).len() implies token_rules.contains(
            #[trigger] production_rules(rules[at])[k],
        ) by {
            assert(token_rules[explicit_rules(init).len() + k] == production_rules(rules[at])[k]);
        }
    }
}

/// A name whose rules all define terminals is no non-terminal.
pub proof fn lemma_no_non_terminal(rules: Seq<ProductionView>, name: Seq<char>)
    requires
        forall|j: int|
            0 <= j < rules.len() && (#[trigger] rules[j]).lhs == name ==> defines_terminal(rules[j]),
    ensures
        !non_terminals_in(rules).contains(name),
    decreases rules.len(),
{
    if rules.len() > 0 {
        let init = rules.drop_last();
        assert forall|j: int| 0 <= j < init.len() && (#[trigger] init[j]).lhs
            == name implies defines_terminal(init[j]) by {
            assert(init[j] == rules[j]);
        }
        lemma_no_non_terminal(init, name);
        let held = non_terminals_in(rules);
        if held.contains(name) {
            let i = choose|i: int| 0 <= i < held.len() && held[i] == name;
            if defines_terminal(rules.last()) {
                assert(non_terminals_in(init)[i] == name);
            } else if i < held.len() - 1 {
                assert(non_terminals_in(init)[i] == name);
            } else {
                assert(rules[rules.len() - 1].lhs == name);
            }
        }
    }
}

/// The productions of the alternatives of a rule are productions of its
/// left-hand side.
pub proof fn lemma_alternatives_keep_lhs(
    lhs: Seq<char>,
    alternatives: Seq<Seq<SymbolView>>,
    table: SymbolTableView,
)
    ensures
        resolve_alternatives(lhs, alternatives, table) matches Ok(done) ==> forall|k: int|
            0 <= k < done.len() ==> (#[trigger] done[k]).non_terminal == lhs,
    decreases alternatives.len(),
{
    if alternatives.len() > 0 {
        lemma_alternatives_keep_lhs(lhs, alternatives.drop_last(), table);
    }
}

/// A name whose rules all define terminals is the left-hand side of no
/// production.
pub proof fn lemma_no_production(rules: Seq<ProductionView>, table: SymbolTableView, name: Seq<char>)
    requires
        forall|j: int|
            0 <= j < rules.len() && (#[trigger] rules[j]).lhs == name ==> defines_terminal(rules[j]),
    ensures
        resolve_all(rules, table) matches Ok(done) ==> forall|k: int|
            0 <= k < done.len() ==> (#[trigger] done[k]).non_terminal != name,
    decreases rules.len(),
{
    if rules.len() > 0 {
        let init = rules.drop_last();
        assert forall|j: int| 0 <= j < init.len() && (#[trigger] init[j]).lhs
            == name implies defines_terminal(init[j]) by {
            assert(init[j] == rules[j]);
        }
        lemma_no_production(init, table, name);
        lemma_alternatives_keep_lhs(rules.last().lhs, rules.last().alternatives, table);
        if !defines_terminal(rules.last()) {
            assert(rules[rules.len() - 1].lhs != name);
        }
    }
}

/// A rule that defines a terminal by its patterns gives a terminal and no
/// non-terminal: in the grammar that the rules describe, its name is a
/// terminal of the symbol table and no non-terminal; an identifier that
/// reads the name, which is not in quotes, stands for the terminal; the
/// name is the left-hand side of no production; and the token rule of the
/// terminal is among the token rules.
pub proof fn lemma_terminal_rule(rules: Seq<ProductionView>, at: int)
    requires
        one_rule_each(rules),
        0 <= at < rules.len(),
        defines_terminal(rules[at]),
        generated(rules) is Ok,
    ensures
        ({
            let made = generated(rules)->Ok_0;
            let name = rules[at].lhs;
            &&& made.symbol_table.terminals.contains_key(name)
            &&& made.symbol_table.terminals[name] == name
            &&& !made.symbol_table.non_terminals.contains_key(name)
            &&& unquoted(name) == name ==> resolve_symbol(
                SymbolView::Identifier(name),
                made.symbol_table,
            ) == Ok::<Option<GrammarSymbolView>, Seq<char>>(
                Some(GrammarSymbolView::Terminal(name)),
            )
            &&& forall|k: int|
                0 <= k < made.grammar_rules.rules.len() ==> (
                #[trigger] made.grammar_rules.rules[k]).non_terminal != name
            &&& forall|k: int|
                0 <= k < own_rule(rules[at]).len() ==> made.token_rules.contains(
                    #[trigger] own_rule(rules[at])[k],
                )
        }),
{
    let made = generated(rules)->Ok_0;
    let name = rules[at].lhs;
    let table = made.symbol_table;
    assert forall|j: int| 0 <= j < rules.len() && (#[trigger] rules[j]).lhs
        == name implies defines_terminal(rules[j]) by {
        if j != at {
            if j < at {
                assert(rules[j].lhs != rules[at].lhs);
            } else {
                assert(rules[at].lhs != rules[j].lhs);
            }
        }
    }
    lemma_rule_is_counted(rules, at);
    lemma_no_non_terminal(rules, name);
    lemma_no_production(rules, table, name);
    lemma_identity_map(explicit_terminals(rules));
    lemma_identity_map(non_terminals_in(rules));
    let own = production_terminals(rules[at]);
    assert(own[own.len() - 1] == name);
    assert(explicit_terminals(rules).contains(name));
    let explicit = identity_map(explicit_terminals(rules));
    let comment = unique_name("Comment"@, explicit);
    let with_comment = explicit.insert(comment, comment);
    let whitespace = unique_name("Whitespace"@, with_comment);
    let terminals = with_comment.insert(whitespace, whitespace);
    let non_terminals = identity_map(non_terminals_in(rules));
    assert(table.terminals == terminals);
    assert(table.non_terminals == non_terminals);
    assert(explicit.contains_key(name) && explicit[name] == name);
    assert(terminals.contains_key(name));
    assert(terminals[name] == name);
    assert(!non_terminals.contains_key(name));
    assert(symbol_text(SymbolView::Identifier(name)) == name);
    assert(made.grammar_rules.rules == resolve_all(rules, table)->Ok_0);
    let token_rules = explicit_rules(rules);
    assert forall|k: int| 0 <= k < own_rule(rules[at]).len() implies made.token_rules.contains(
        #[trigger] own_rule(rules[at])[k],
    ) by {
        let rule = own_rule(rules[at])[k];
        let before = literal_rules(literals_of(rules[at].alternatives));
        assert(production_rules(rules[at])[before.len() + k] == rule);
        assert(token_rules.contains(rule));
        let i = choose|i: int| 0 <= i < token_rules.len() && token_rules[i] == rule;
        assert(made.token_rules[i] == rule);
    }
}

/// A rule whose one alternative is a regular expression gives a terminal:
/// in the grammar that the rules describe, its name is a terminal and no
/// non-terminal and the left-hand side of no production, and the token
/// rule of the terminal holds the regular expression without its two
/// slashes, otherwise unchanged, and is not skipped.
pub proof fn lemma_regex_is_a_terminal(rules: Seq<ProductionView>, at: int, pattern: Seq<char>)
    requires
        one_rule_each(rules),
        0 <= at < rules.len(),
        rules[at].alternatives == seq![seq![SymbolView::Regex(seq!['/'] + pattern + seq!['/'])]],
        !rules[at].lowered,
        generated(rules) is Ok,
    ensures
        ({
            let made = generated(rules)->Ok_0;
            let name = rules[at].lhs;
            &&& made.symbol_table.terminals.contains_key(name)
            &&& !made.symbol_table.non_terminals.contains_key(name)
            &&& forall|k: int|
                0 <= k < made.grammar_rules.rules.len() ==> (
                #[trigger] made.grammar_rules.rules[k]).non_terminal != name
            &&& made.token_rules.contains(TokenRuleView { kind: name, regex: pattern, skip: false })
        }),
{
    let name = rules[at].lhs;
    lemma_single_regex(name, pattern);
    assert(rules[at] == (ProductionView {
        lhs: name,
        alternatives: seq![seq![SymbolView::Regex(seq!['/'] + pattern + seq!['/'])]],
        lowered: false,
    }));
    lemma_terminal_rule(rules, at);
    assert(own_rule(rules[at])[0] == (TokenRuleView { kind: name, regex: pattern, skip: false }));
}

/// A rule whose alternatives are the three literals `"+"`, `"-"` and `"*"`
/// gives one terminal: in the grammar that the rules describe, its name is
/// a terminal and no non-terminal and the left-hand side of no production,
/// and the token rule of the terminal matches any of the three signs, each
/// escaped, and is not skipped.
pub proof fn lemma_operators_are_one_terminal(rules: Seq<ProductionView>, at: int)
    requires
        one_rule_each(rules),
        0 <= at < rules.len(),
        rules[at].alternatives == seq![seq![quoted("+"@)], seq![quoted("-"@)], seq![quoted("*"@)]],
        !rules[at].lowered,
        generated(rules) is Ok,
    ensures
        ({
            let made = generated(rules)->Ok_0;
            let name = rules[at].lhs;
            &&& made.symbol_table.terminals.contains_key(name)
            &&& !made.symbol_table.non_terminals.contains_key(name)
            &&& forall|k: int|
                0 <= k < made.grammar_rules.rules.len() ==> (
                #[trigger] made.grammar_rules.rules[k]).non_terminal != name
            &&& made.token_rules.contains(
                TokenRuleView { kind: name, regex: "(\\+|\\-|\\*)"@, skip: false },
            )
        }),
{
    let name = rules[at].lhs;
    let plus = "+"@;
    let minus = "-"@;
    let times = "*"@;
    reveal_strlit("+");
    reveal_strlit("-");
    reveal_strlit("*");
    reveal_strlit("(\\+|\\-|\\*)");
    assert(plus.len() == 1 && minus.len() == 1 && times.len() == 1);
    assert(escaped(plus.drop_last()) =~= Seq::<char>::empty());
    assert(escaped(minus.drop_last()) =~= Seq::<char>::empty());
    assert(escaped(times.drop_last()) =~= Seq::<char>::empty());
    assert(escaped(plus) =~= seq!['\\', '+']);
    assert(escaped(minus) =~= seq!['\\', '-']);
    assert(escaped(times) =~= seq!['\\', '*']);
    lemma_literal_alternatives(name, plus, minus, times);
    assert(rules[at] == (ProductionView {
        lhs: name,
        alternatives: seq![seq![quoted(plus)], seq![quoted(minus)], seq![quoted(times)]],
        lowered: false,
    }));
    lemma_terminal_rule(rules, at);
    let pattern = seq!['('] + escaped(plus) + seq!['|'] + escaped(minus) + seq!['|'] + escaped(
        times,
    ) + seq![')'];
    assert(pattern =~= "(\\+|\\-|\\*)"@);
    assert(own_rule(rules[at])[0] == (TokenRuleView { kind: name, regex: pattern, skip: false }));
}

/// What a single identifier alone holds: itself.
pub proof fn lemma_one_identifier(name: Seq<char>)
    ensures
        identifiers_of(seq![seq![SymbolView::Identifier(name)]]) == seq![name],
        literals_of(seq![seq![SymbolView::Identifier(name)]]) == Seq::<Seq<char>>::empty(),
        regexes_of(seq![seq![SymbolView::Identifier(name)]]) == Seq::<Seq<char>>::empty(),
{
    let atoms = seq![SymbolView::Identifier(name)];
    let alternatives = seq![atoms];
    assert(atoms.drop_last() =~= Seq::<SymbolView>::empty());
    assert(alternatives.drop_last() =~= Seq::<Seq<SymbolView>>::empty());
    assert(atoms.last() == SymbolView::Identifier(name));
    assert(alternatives.last() == atoms);
    assert(identifiers_in(atoms.drop_last()) =~= Seq::<Seq<char>>::empty());
    assert(literals_in(atoms.drop_last()) =~= Seq::<Seq<char>>::empty());
    assert(regexes_in(atoms.drop_last()) =~= Seq::<Seq<char>>::empty());
    assert(identifiers_in(atoms) =~= seq![name]);
    assert(literals_in(atoms) =~= Seq::<Seq<char>>::empty());
    assert(regexes_in(atoms) =~= Seq::<Seq<char>>::empty());
    assert(identifiers_of(alternatives.drop_last()) =~= Seq::<Seq<char>>::empty());
    assert(literals_of(alternatives.drop_last()) =~= Seq::<Seq<char>>::empty());
    assert(regexes_of(alternatives.drop_last()) =~= Seq::<Seq<char>>::empty());
    assert(identifiers_of(alternatives) =~= seq![name]);
    assert(literals_of(alternatives) =~= Seq::<Seq<char>>::empty());
    assert(regexes_of(alternatives) =~= Seq::<Seq<char>>::empty());
}

/// The rules of a grammar text that defines `op` by the three literals
/// `"+"`, `"-"` and `"*"` and `s` by `op`.
pub open spec fn operator_rules() -> Seq<ProductionView> {
    seq![
        ProductionView {
            lhs: "op"@,
            alternatives: seq![seq![quoted("+"@)], seq![quoted("-"@)], seq![quoted("*"@)]],
            lowered: false,
        },
        ProductionView {
            lhs: "s"@,
            alternatives: seq![seq![SymbolView::Identifier("op"@)]],
            lowered: false,
        },
    ]
}

/// The rules `op = "+" | "-" | "*"` and `s = op` describe a grammar: its
/// start symbol is `s`, and its one production gives the terminal `op` for
/// `s`. There `op` is a terminal and no non-terminal, and its token rule
/// matches any of the three signs, each escaped, and is not skipped.
pub proof fn lemma_operator_grammar()
    ensures
        one_rule_each(operator_rules()),
        generated(operator_rules()) is Ok,
        generated(operator_rules())->Ok_0.grammar_rules == (GrammarRulesView {
            start_symbol: "s"@,
            rules: seq![
                RuleView { non_terminal: "s"@, rhs: seq![GrammarSymbolView::Terminal("op"@)] },
            ],
        }),
        generated(operator_rules())->Ok_0.symbol_table.terminals.contains_key("op"@),
        !generated(operator_rules())->Ok_0.symbol_table.non_terminals.contains_key("op"@),
        generated(operator_rules())->Ok_0.token_rules.contains(
            TokenRuleView { kind: "op"@, regex: "(\\+|\\-|\\*)"@, skip: false },
        ),
{
    let rules = operator_rules();
    let first = rules[0];
    let second = rules[1];
    let op = "op"@;
    let start = "s"@;
    let plus = "+"@;
    let minus = "-"@;
    let times = "*"@;
    reveal_strlit("op");
    reveal_strlit("s");
    reveal_strlit("+");
    reveal_strlit("-");
    reveal_strlit("*");
    reveal_strlit("Comment");
    reveal_strlit("Whitespace");
    assert(op.len() == 2 && start.len() == 1 && plus.len() == 1 && minus.len() == 1 && times.len()
        == 1);
    assert("Comment"@.len() == 7 && "Whitespace"@.len() == 10);
    lemma_literal_alternatives(op, plus, minus, times);
    lemma_one_identifier(op);
    let one = rules.drop_last();
    assert(one =~= seq![first]);
    assert(one.drop_last() =~= Seq::<ProductionView>::empty());
    assert(one.last() == first);
    assert(rules.last() == second);
    assert(defines_terminal(first));
    assert(!defines_terminal(second));
    assert(classification_error(second) is None);
    assert(first_classification_error(one.drop_last()) is None);
    assert(first_classification_error(one) is None);
    assert(first_classification_error(rules) is None);
    let names = explicit_terminals(rules);
    assert(explicit_terminals(one.drop_last()) =~= Seq::<Seq<char>>::empty());
    assert(production_terminals(first) =~= seq![plus, minus, times, op]);
    assert(production_terminals(second) =~= Seq::<Seq<char>>::empty());
    assert(explicit_terminals(one) =~= seq![plus, minus, times, op]);
    assert(names =~= seq![plus, minus, times, op]);
    lemma_identity_map(names);
    let explicit = identity_map(names);
    assert(names[3] == op);
    assert(names.contains(op));
    assert(!names.contains("Comment"@));
    assert(!names.contains("Whitespace"@));
    assert(!names.contains(start));
    assert(candidate("Comment"@, 0) == "Comment"@);
    assert(candidate("Whitespace"@, 0) == "Whitespace"@);
    assert(is_first_free("Comment"@, explicit, 0));
    lemma_first_free("Comment"@, explicit, 0);
    let comment = unique_name("Comment"@, explicit);
    assert(comment == "Comment"@);
    assert(!exhausted("Comment"@, explicit)) by {
        if exhausted("Comment"@, explicit) {
            assert(explicit.contains_key(candidate("Comment"@, 0)));
        }
    }
    let with_comment = explicit.insert(comment, comment);
    assert(!with_comment.contains_key("Whitespace"@));
    assert(is_first_free("Whitespace"@, with_comment, 0));
    lemma_first_free("Whitespace"@, with_comment, 0);
    let whitespace = unique_name("Whitespace"@, with_comment);
    assert(whitespace == "Whitespace"@);
    assert(!exhausted("Whitespace"@, with_comment)) by {
        if exhausted("Whitespace"@, with_comment) {
            assert(with_comment.contains_key(candidate("Whitespace"@, 0)));
        }
    }
    let terminals = with_comment.insert(whitespace, whitespace);
    assert(terminals.contains_key(op) && terminals[op] == op);
    let defined = non_terminals_in(rules);
    assert(non_terminals_in(one.drop_last()) =~= Seq::<Seq<char>>::empty());
    assert(non_terminals_in(one) =~= Seq::<Seq<char>>::empty());
    assert(defined =~= seq![start]);
    lemma_identity_map(defined);
    let non_terminals = identity_map(defined);
    assert(!defined.contains(op));
    let table = SymbolTableView {
        non_terminals,
        terminals,
        non_terminal_names: non_terminals,
        terminal_names: terminals,
    };
    let atom = SymbolView::Identifier(op);
    assert(symbol_text(atom) == op);
    assert(unquoted(op) == op);
    assert(resolve_symbol(atom, table) == Ok::<Option<GrammarSymbolView>, Seq<char>>(
        Some(GrammarSymbolView::Terminal(op)),
    ));
    let atoms = seq![atom];
    assert(atoms.drop_last() =~= Seq::<SymbolView>::empty());
    assert(atoms.last() == atom);
    assert(resolve_atoms(atoms.drop_last(), table) == Ok::<Seq<GrammarSymbolView>, Seq<char>>(
        Seq::empty(),
    ));
    let rhs = seq![GrammarSymbolView::Terminal(op)];
    assert(Seq::<GrammarSymbolView>::empty().push(GrammarSymbolView::Terminal(op)) =~= rhs);
    assert(resolve_atoms(atoms, table) == Ok::<Seq<GrammarSymbolView>, Seq<char>>(rhs));
    let alternatives = second.alternatives;
    assert(alternatives.drop_last() =~= Seq::<Seq<SymbolView>>::empty());
    assert(alternatives.last() == atoms);
    let production = RuleView { non_terminal: start, rhs };
    assert(Seq::<RuleView>::empty().push(production) =~= seq![production]);
    assert(resolve_alternatives(start, alternatives.drop_last(), table) == Ok::<
        Seq<RuleView>,
        Seq<char>,
    >(Seq::empty()));
    assert(resolve_alternatives(start, alternatives, table) == Ok::<Seq<RuleView>, Seq<char>>(
        seq![production],
    ));
    assert(resolve_all(one.drop_last(), table) == Ok::<Seq<RuleView>, Seq<char>>(Seq::empty()));
    assert(resolve_all(one, table) == Ok::<Seq<RuleView>, Seq<char>>(Seq::empty()));
    assert(Seq::<RuleView>::empty() + seq![production] =~= seq![production]);
    assert(resolve_all(rules, table) == Ok::<Seq<RuleView>, Seq<char>>(seq![production]));
    let referenced = referenced_in(rules);
    assert(referenced_in(one.drop_last()) =~= Seq::<Seq<char>>::empty());
    assert(referenced_in(one) =~= Seq::<Seq<char>>::empty());
    assert(referenced =~= seq![op]);
    assert(!referenced.contains(start));
    assert(defined.drop_last() =~= Seq::<Seq<char>>::empty());
    assert(defined.last() == start);
    assert(unreferenced(defined.drop_last(), referenced) =~= Seq::<Seq<char>>::empty());
    assert(unreferenced(defined, referenced) =~= seq![start]);
    assert(generated(rules) is Ok);
    lemma_operators_are_one_terminal(rules, 0);
}

impl Action for GeneratorAction {
    type ParseResult = Result<GeneratorResult, GeneratorError>;

    type ParseError = ParseError;

    closed spec fn heard(&self) -> Seq<Call> {
        self.heard@
    }

    open spec fn consistent(&self) -> bool {
        &&& self.nodes() == progress(self.heard()).nodes
        &&& self.rules() == progress(self.heard()).rules
        &&& self.failure() == progress(self.heard()).failure
        &&& self.next() == progress(self.heard()).next
    }

    open spec fn delivered(&self, result: &Result<GeneratorResult, GeneratorError>) -> bool {
        &&& self.heard().len() > 0
        &&& self.heard().last() == Call::Accept
        &&& finished_result(*result) == finished(
            progress(self.heard().drop_last()).nodes,
            progress(self.heard().drop_last()).rules,
            progress(self.heard().drop_last()).failure,
        )
    }

    open spec fn reported(&self, error: &ParseError) -> bool {
        &&& self.heard().len() > 0
        &&& self.heard().last() matches Call::Error(token, span)
        &&& error@ == syntax_error(token.text, span)
    }

    fn on_reduce(&mut self, non_terminal: &NonTerminal, rhs: &[GrammarSymbol])
        ensures
            final(self).nodes() == grammar_tree_reduced(
                old(self).nodes(),
                non_terminal@,
                rhs@.len(),
            ),
            non_terminal@ == "Rule"@ && old(self).failure() is None ==> final(self).rules()
                == noted(old(self).rules(), final(self).nodes().last(), old(self).next())
                && final(self).failure() == unreadable(
                final(self).nodes().last(),
                old(self).next(),
            ) && final(self).next() == numbered(final(self).nodes().last(), old(self).next()),
            !(non_terminal@ == "Rule"@ && old(self).failure() is None) ==> final(self).rules()
                == old(self).rules() && final(self).failure() == old(self).failure()
                && final(self).next() == old(self).next(),
    {
        proof {
            let told = self.heard@.push(Call::Reduce(non_terminal@, views(rhs@)));
            assert(told.drop_last() =~= self.heard@);
            assert(views(rhs@).len() == rhs@.len());
            self.heard = Ghost(told);
        }
        let grouping = non_terminal.is_named("Grammar") || non_terminal.is_named(
            "GrammarRepetition",
        ) || non_terminal.is_named("Atom");
        if !grouping {
            build_node(&mut self.node_stack, non_terminal, rhs.len());
        }
        if non_terminal.is_named("Rule") && self.failure.is_none() {
            proof {
                reveal_strlit("Rule");
                reveal_strlit("Grammar");
                reveal_strlit("GrammarRepetition");
                reveal_strlit("Atom");
                assert("Rule"@.len() == 4);
                assert("Grammar"@.len() == 7);
                assert("GrammarRepetition"@.len() == 17);
                assert("Atom"@[0] == 'A');
                assert("Rule"@[0] == 'R');
                assert(!is_grouping("Rule"@));
                assert(!grouping);
                assert(views(self.node_stack@).len() == self.node_stack@.len());
                assert(built(old(self).nodes(), non_terminal@, rhs@.len()).len() > 0);
            }
            let count = self.node_stack.len();
            assert(count > 0);
            let node = &self.node_stack[count - 1];
            assert(node@ == views(self.node_stack@).last());
            let children = node.get_children();
            if children.len() != 3 {
                self.failure = Some(
                    String::from_str("Rule does not hold an identifier, a sign and an expression"),
                );
            } else {
                let lhs = children[0].get_lexeme();
                match lower_expression(&children[2], &lhs, self.fresh) {
                    Ok(lowered) => {
                        let Lowered { alternatives, extra, next } = lowered;
                        add_rule(&mut self.productions, lhs, alternatives, false);
                        add_rules(&mut self.productions, extra);
                        self.fresh = next;
                    },
                    Err(message) => {
                        self.failure = Some(message);
                    },
                }
            }
        }
    }

    fn on_shift(&mut self, token: Token)
        ensures
            final(self).rules() == old(self).rules(),
            final(self).failure() == old(self).failure(),
            final(self).next() == old(self).next(),
            final(self).nodes() == old(self).nodes().push(
                leaf_of(token@.kind, token@.text, token@.start, token@.end),
            ),
    {
        proof {
            let told = self.heard@.push(Call::Shift(token@));
            assert(told.drop_last() =~= self.heard@);
            self.heard = Ghost(told);
        }
        push_leaf(&mut self.node_stack, token);
    }

    fn on_accept(&mut self) -> (r: Self::ParseResult)
        ensures
            final(self).nodes() == Seq::<NodeView>::empty(),
            final(self).rules() == Seq::<ProductionView>::empty(),
            final(self).failure() is None,
            final(self).next() == 0,
            finished_result(r) == finished(
                old(self).nodes(),
                old(self).rules(),
                old(self).failure(),
            ),
    {
        proof {
            let told = self.heard@.push(Call::Accept);
            assert(told.drop_last() =~= self.heard@);
            self.heard = Ghost(told);
        }
        let mut children: Vec<ParseTreeNode> = Vec::new();
        children.append(&mut self.node_stack);
        let mut rules: Vec<Production> = Vec::new();
        rules.append(&mut self.productions);
        let failure = self.failure.take();
        self.fresh = 0;
        proof {
            lemma_one_rule_each(old(self).heard());
        }
        assert(views(self.node_stack@) =~= Seq::<NodeView>::empty());
        assert(views(self.productions@) =~= Seq::<ProductionView>::empty());
        if let Some(message) = failure {
            return Err(GeneratorError::Grammar(GrammarError::MalformedRule(message)));
        }
        match GeneratorAction::generate_result(&rules) {
            Err(e) => Err(e),
            Ok(grammar) => {
                let root = ParseTreeNode::non_terminal(
                    NonTerminal::named("Grammar"),
                    children,
                    Span::new(0, 0, 1, 1),
                );
                let Generated { symbol_table, grammar_rules, token_rules } = grammar;
                Ok(GeneratorResult::new(symbol_table, grammar_rules, token_rules, root))
            },
        }
    }

    fn on_error(&mut self, token: Token, span: Span) -> (r: Self::ParseError)
        ensures
            final(self).nodes() == old(self).nodes(),
            final(self).rules() == old(self).rules(),
            final(self).failure() == old(self).failure(),
            final(self).next() == old(self).next(),
            r@ == syntax_error(token@.text, span),
    {
        proof {
            let told = self.heard@.push(Call::Error(token@, span));
            assert(told.drop_last() =~= self.heard@);
            self.heard = Ghost(told);
        }
        unexpected(token, span)
    }
}

impl Default for GeneratorAction {
    fn default() -> (r: Self)
        ensures
            r.consistent(),
            r.heard() == Seq::<Call>::empty(),
    {
        GeneratorAction::new()
    }
}

} // verus!
