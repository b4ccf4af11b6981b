//! Terminal and non-terminal symbols, and the table that interns them.

use crate::common::name_map::NameMap;
use crate::common::parse_tree::views;
use vstd::prelude::*;

verus! {

/// A terminal symbol, identified by its name.
#[derive(Debug, PartialEq, Eq, PartialOrd, Ord, Hash, Default)]
pub struct Terminal(pub String);

/// A non-terminal symbol, identified by its name.
#[derive(Debug, PartialEq, Eq, PartialOrd, Ord, Hash, Default)]
pub struct NonTerminal(pub String);

impl View for Terminal {
    type V = Seq<char>;

    open spec fn view(&self) -> Seq<char> {
        self.0@
    }
}

impl View for NonTerminal {
    type V = Seq<char>;

    open spec fn view(&self) -> Seq<char> {
        self.0@
    }
}

impl Clone for Terminal {
    fn clone(&self) -> (r: Self)
        ensures
            r@ == self@,
    {
        Terminal(self.0.clone())
    }
}

impl Clone for NonTerminal {
    fn clone(&self) -> (r: Self)
        ensures
            r@ == self@,
    {
        NonTerminal(self.0.clone())
    }
}

/// The name of the terminal that ends every token stream.
pub open spec fn eof_name() -> Seq<char> {
    "<EOF>"@
}

/// The name of the terminal given to input that no token rule matches.
pub open spec fn unrecognized_name() -> Seq<char> {
    "<UNRECOGNIZED>"@
}

/// Whether `name` and `text` hold the same characters.
pub fn same_text(name: &String, text: &str) -> (b: bool)
    ensures
        b == (name@ == text@),
{
    let other = String::from_str(text);
    *name == other
}

impl Terminal {
    /// The terminal named `name`.
    pub fn named(name: &str) -> (r: Self)
        ensures
            r@ == name@,
    {
        Terminal(String::from_str(name))
    }

    /// The terminal given to input that no token rule matches.
    pub fn unrecognized() -> (r: Self)
        ensures
            r@ == unrecognized_name(),
    {
        Terminal(String::from_str("<UNRECOGNIZED>"))
    }

    /// The terminal that ends every token stream.
    pub fn eof() -> (r: Self)
        ensures
            r@ == eof_name(),
    {
        Terminal(String::from_str("<EOF>"))
    }

    /// Whether this is the terminal that ends every token stream.
    pub fn is_eof(&self) -> (b: bool)
        ensures
            b == (self@ == eof_name()),
    {
        same_text(&self.0, "<EOF>")
    }

    /// Whether this is the terminal of input that no token rule matches.
    pub fn is_unrecognized(&self) -> (b: bool)
        ensures
            b == (self@ == unrecognized_name()),
    {
        same_text(&self.0, "<UNRECOGNIZED>")
    }

    /// Whether this terminal has the given name.
    pub fn is_named(&self, name: &str) -> (b: bool)
        ensures
            b == (self@ == name@),
    {
        same_text(&self.0, name)
    }

    /// Whether both terminals have the same name.
    pub fn same(&self, other: &Terminal) -> (b: bool)
        ensures
            b == (self@ == other@),
    {
        self.0 == other.0
    }
}

impl NonTerminal {
    /// The non-terminal named `name`.
    pub fn named(name: &str) -> (r: Self)
        ensures
            r@ == name@,
    {
        NonTerminal(String::from_str(name))
    }

    /// Whether this non-terminal has the given name.
    pub fn is_named(&self, name: &str) -> (b: bool)
        ensures
            b == (self@ == name@),
    {
        same_text(&self.0, name)
    }

    /// Whether both non-terminals have the same name.
    pub fn same(&self, other: &NonTerminal) -> (b: bool)
        ensures
            b == (self@ == other@),
    {
        self.0 == other.0
    }
}

/// The names of terminals and non-terminals, and for each symbol the name
/// under which it is shown.
#[derive(Debug, Default)]
pub struct SymbolTable {
    non_terminals: NameMap,
    terminals: NameMap,
    non_terminal_names: NameMap,
    terminal_names: NameMap,
}

/// What a symbol table holds: for each kind of symbol a map from names to
/// symbols, and a map from symbols to the names under which they are shown.
/// A symbol stands in the maps as its own name.
pub ghost struct SymbolTableView {
    pub non_terminals: Map<Seq<char>, Seq<char>>,
    pub terminals: Map<Seq<char>, Seq<char>>,
    pub non_terminal_names: Map<Seq<char>, Seq<char>>,
    pub terminal_names: Map<Seq<char>, Seq<char>>,
}

/// The map that holds, for each pair of `pairs`, the second under the first.
/// Where a first occurs twice, the later pair decides.
pub open spec fn map_of(pairs: Seq<(Seq<char>, Seq<char>)>) -> Map<Seq<char>, Seq<char>>
    decreases pairs.len(),
{
    if pairs.len() == 0 {
        Map::empty()
    } else {
        map_of(pairs.drop_last()).insert(pairs.last().0, pairs.last().1)
    }
}

/// The map that holds, for each pair of `pairs`, the first under the second.
/// Where a second occurs twice, the later pair decides.
pub open spec fn inverse_map_of(pairs: Seq<(Seq<char>, Seq<char>)>) -> Map<Seq<char>, Seq<char>>
    decreases pairs.len(),
{
    if pairs.len() == 0 {
        Map::empty()
    } else {
        inverse_map_of(pairs.drop_last()).insert(pairs.last().1, pairs.last().0)
    }
}

/// The map that holds each name of `names` under itself.
pub open spec fn identity_map(names: Seq<Seq<char>>) -> Map<Seq<char>, Seq<char>>
    decreases names.len(),
{
    if names.len() == 0 {
        Map::empty()
    } else {
        identity_map(names.drop_last()).insert(names.last(), names.last())
    }
}

/// The identity map of `names` holds exactly the names of `names`, each
/// under itself.
pub proof fn lemma_identity_map(names: Seq<Seq<char>>)
    ensures
        forall|name: Seq<char>| #[trigger]
            identity_map(names).contains_key(name) <==> names.contains(name),
        forall|name: Seq<char>| #[trigger]
            identity_map(names).contains_key(name) ==> identity_map(names)[name] == name,
    decreases names.len(),
{
    if names.len() == 0 {
        assert forall|name: Seq<char>| !names.contains(name) by {}
    } else {
        let init = names.drop_last();
        let last = names.last();
        lemma_identity_map(init);
        assert(identity_map(names) == identity_map(init).insert(last, last));
        assert forall|name: Seq<char>| #[trigger]
            identity_map(names).contains_key(name) <==> names.contains(name) by {
            if name == last {
                assert(names[names.len() - 1] == name);
            } else {
                if names.contains(name) {
                    let i = choose|i: int| 0 <= i < names.len() && names[i] == name;
                    assert(init[i] == name);
                }
                if init.contains(name) {
                    let i = choose|i: int| 0 <= i < init.len() && init[i] == name;
                    assert(names[i] == name);
                }
            }
        }
        assert forall|name: Seq<char>| #[trigger]
            identity_map(names).contains_key(name) implies identity_map(names)[name] == name by {
            if name != last {
                assert(identity_map(init).contains_key(name));
            }
        }
    }
}

/// The name of a terminal that may or may not be there.
pub open spec fn optional_name(terminal: Option<&Terminal>) -> Option<Seq<char>> {
    match terminal {
        Some(t) => Some(t@),
        None => None,
    }
}

/// The names and symbols of `pairs`, as plain pairs of names.
pub open spec fn terminal_pairs(pairs: Seq<(String, Terminal)>) -> Seq<(Seq<char>, Seq<char>)> {
    Seq::new(pairs.len(), |i: int| (pairs[i].0@, pairs[i].1@))
}

/// The names and symbols of `pairs`, as plain pairs of names.
pub open spec fn non_terminal_pairs(pairs: Seq<(String, NonTerminal)>) -> Seq<
    (Seq<char>, Seq<char>),
> {
    Seq::new(pairs.len(), |i: int| (pairs[i].0@, pairs[i].1@))
}

impl Terminal {
    /// The name under which `symbol_table` shows this terminal.
    pub fn to_string(self, symbol_table: &SymbolTable) -> (r: Option<&str>)
        requires
            symbol_table.wf(),
        ensures
            match r {
                Some(name) => symbol_table@.terminal_names.contains_key(self@) && name@
                    == symbol_table@.terminal_names[self@],
                None => !symbol_table@.terminal_names.contains_key(self@),
            },
    {
        symbol_table.get_terminal_name(&self)
    }
}

impl NonTerminal {
    /// The name under which `symbol_table` shows this non-terminal.
    pub fn to_string(self, symbol_table: &SymbolTable) -> (r: Option<&str>)
        requires
            symbol_table.wf(),
        ensures
            match r {
                Some(name) => symbol_table@.non_terminal_names.contains_key(self@) && name@
                    == symbol_table@.non_terminal_names[self@],
                None => !symbol_table@.non_terminal_names.contains_key(self@),
            },
    {
        symbol_table.get_non_terminal_name(&self)
    }
}

impl SymbolTable {
    /// The four maps are well formed.
    pub closed spec fn wf(&self) -> bool {
        &&& self.non_terminals.wf()
        &&& self.terminals.wf()
        &&& self.non_terminal_names.wf()
        &&& self.terminal_names.wf()
    }

    /// What the table holds.
    pub closed spec fn view(&self) -> SymbolTableView {
        SymbolTableView {
            non_terminals: self.non_terminals@,
            terminals: self.terminals@,
            non_terminal_names: self.non_terminal_names@,
            terminal_names: self.terminal_names@,
        }
    }

    /// The empty table.
    pub fn new() -> (r: Self)
        ensures
            r.wf(),
            r@.non_terminals == Map::<Seq<char>, Seq<char>>::empty(),
            r@.terminals == Map::<Seq<char>, Seq<char>>::empty(),
            r@.non_terminal_names == Map::<Seq<char>, Seq<char>>::empty(),
            r@.terminal_names == Map::<Seq<char>, Seq<char>>::empty(),
    {
        SymbolTable {
            non_terminals: NameMap::new(),
            terminals: NameMap::new(),
            non_terminal_names: NameMap::new(),
            terminal_names: NameMap::new(),
        }
    }

    /// The table that holds the given terminals and non-terminals, each
    /// shown under its own name.
    pub fn of_names(terminals: &Vec<String>, non_terminals: &Vec<String>) -> (r: Self)
        ensures
            r.wf(),
            r@ == (SymbolTableView {
                non_terminals: identity_map(views(non_terminals@)),
                terminals: identity_map(views(terminals@)),
                non_terminal_names: identity_map(views(non_terminals@)),
                terminal_names: identity_map(views(terminals@)),
            }),
    {
        let mut table = SymbolTable::new();
        let mut i: usize = 0;
        while i < terminals.len()
            invariant
                i <= terminals.len(),
                table.wf(),
                table@.terminals == identity_map(views(terminals@).take(i as int)),
                table@.terminal_names == identity_map(views(terminals@).take(i as int)),
                table@.non_terminals == Map::<Seq<char>, Seq<char>>::empty(),
                table@.non_terminal_names == Map::<Seq<char>, Seq<char>>::empty(),
            decreases terminals.len() - i,
        {
            proof {
                let all = views(terminals@);
                lemma_identity_map(all.take(i as int));
                assert(all.take(i + 1).drop_last() =~= all.take(i as int));
                assert(all.take(i + 1).last() == terminals@[i as int]@);
                let held = identity_map(all.take(i as int));
                let name = terminals@[i as int]@;
                if held.contains_key(name) {
                    assert(held.insert(name, name) =~= held);
                }
            }
            let _ = table.insert_terminal(terminals[i].clone());
            i += 1;
        }
        assert(views(terminals@).take(i as int) =~= views(terminals@));
        let mut j: usize = 0;
        while j < non_terminals.len()
            invariant
                j <= non_terminals.len(),
                table.wf(),
                table@.terminals == identity_map(views(terminals@)),
                table@.terminal_names == identity_map(views(terminals@)),
                table@.non_terminals == identity_map(views(non_terminals@).take(j as int)),
                table@.non_terminal_names == identity_map(views(non_terminals@).take(j as int)),
            decreases non_terminals.len() - j,
        {
            proof {
                let all = views(non_terminals@);
                lemma_identity_map(all.take(j as int));
                assert(all.take(j + 1).drop_last() =~= all.take(j as int));
                assert(all.take(j + 1).last() == non_terminals@[j as int]@);
                let held = identity_map(all.take(j as int));
                let name = non_terminals@[j as int]@;
                if held.contains_key(name) {
                    assert(held.insert(name, name) =~= held);
                }
            }
            let _ = table.insert_non_terminal(non_terminals[j].clone());
            j += 1;
        }
        assert(views(non_terminals@).take(j as int) =~= views(non_terminals@));
        table
    }

    /// The table of the given names and symbols. Each symbol is shown under
    /// the name that it was given with.
    #[must_use]
    pub fn from_maps(
        terminals: Vec<(String, Terminal)>,
        non_terminals: Vec<(String, NonTerminal)>,
    ) -> (r: Self)
        ensures
            r.wf(),
            r@.terminals == map_of(terminal_pairs(terminals@)),
            r@.terminal_names == inverse_map_of(terminal_pairs(terminals@)),
            r@.non_terminals == map_of(non_terminal_pairs(non_terminals@)),
            r@.non_terminal_names == inverse_map_of(non_terminal_pairs(non_terminals@)),
    {
        let mut table = SymbolTable::new();
        let mut i: usize = 0;
        while i < terminals.len()
            invariant
                i <= terminals.len(),
                table.wf(),
                table@.terminals == map_of(terminal_pairs(terminals@).take(i as int)),
                table@.terminal_names == inverse_map_of(terminal_pairs(terminals@).take(i as int)),
                table@.non_terminals == Map::<Seq<char>, Seq<char>>::empty(),
                table@.non_terminal_names == Map::<Seq<char>, Seq<char>>::empty(),
            decreases terminals.len() - i,
        {
            let name = terminals[i].0.clone();
            let symbol = terminals[i].1.clone();
            proof {
                let all = terminal_pairs(terminals@);
                assert(all.take(i + 1).drop_last() =~= all.take(i as int));
                assert(all.take(i + 1).last() == (name@, symbol@));
            }
            table.terminals.insert(name.clone(), symbol.0.clone());
            table.terminal_names.insert(symbol.0, name);
            i += 1;
        }
        assert(terminal_pairs(terminals@).take(i as int) =~= terminal_pairs(terminals@));
        let mut j: usize = 0;
        while j < non_terminals.len()
            invariant
                j <= non_terminals.len(),
                table.wf(),
                table@.terminals == map_of(terminal_pairs(terminals@)),
                table@.terminal_names == inverse_map_of(terminal_pairs(terminals@)),
                table@.non_terminals == map_of(non_terminal_pairs(non_terminals@).take(j as int)),
                table@.non_terminal_names == inverse_map_of(
                    non_terminal_pairs(non_terminals@).take(j as int),
                ),
            decreases non_terminals.len() - j,
        {
            let name = non_terminals[j].0.clone();
            let symbol = non_terminals[j].1.clone();
            proof {
                let all = non_terminal_pairs(non_terminals@);
                assert(all.take(j + 1).drop_last() =~= all.take(j as int));
                assert(all.take(j + 1).last() == (name@, symbol@));
            }
            table.non_terminals.insert(name.clone(), symbol.0.clone());
            table.non_terminal_names.insert(symbol.0, name);
            j += 1;
        }
        assert(non_terminal_pairs(non_terminals@).take(j as int) =~= non_terminal_pairs(
            non_terminals@,
        ));
        table
    }

    /// The non-terminal named `non_terminal_name`. Where the table holds none
    /// yet, it is added, and shown under its own name.
    pub fn insert_non_terminal(&mut self, non_terminal_name: String) -> (r: NonTerminal)
        requires
            old(self).wf(),
        ensures
            final(self).wf(),
            final(self)@.terminals == old(self)@.terminals,
            final(self)@.terminal_names == old(self)@.terminal_names,
            old(self)@.non_terminals.contains_key(non_terminal_name@) ==> *final(self) == *old(self)
                && r@ == old(self)@.non_terminals[non_terminal_name@],
            !old(self)@.non_terminals.contains_key(non_terminal_name@) ==> r@
                == non_terminal_name@ && final(self)@.non_terminals
                == old(self)@.non_terminals.insert(non_terminal_name@, non_terminal_name@)
                && final(self)@.non_terminal_names == old(self)@.non_terminal_names.insert(
                non_terminal_name@,
                non_terminal_name@,
            ),
    {
        match self.non_terminals.get(non_terminal_name.as_str()) {
            Some(symbol) => NonTerminal(symbol.clone()),
            None => {
                self.non_terminals.insert(non_terminal_name.clone(), non_terminal_name.clone());
                self.non_terminal_names.insert(
                    non_terminal_name.clone(),
                    non_terminal_name.clone(),
                );
                NonTerminal(non_terminal_name)
            },
        }
    }

    /// The terminal named `terminal_name`. Where the table holds none yet, it
    /// is added, and shown under its own name.
    pub fn insert_terminal(&mut self, terminal_name: String) -> (r: Terminal)
        requires
            old(self).wf(),
        ensures
            final(self).wf(),
            final(self)@.non_terminals == old(self)@.non_terminals,
            final(self)@.non_terminal_names == old(self)@.non_terminal_names,
            old(self)@.terminals.contains_key(terminal_name@) ==> *final(self) == *old(self) && r@
                == old(self)@.terminals[terminal_name@],
            !old(self)@.terminals.contains_key(terminal_name@) ==> r@ == terminal_name@
                && final(self)@.terminals == old(self)@.terminals.insert(
                terminal_name@,
                terminal_name@,
            ) && final(self)@.terminal_names == old(self)@.terminal_names.insert(
                terminal_name@,
                terminal_name@,
            ),
    {
        match self.terminals.get(terminal_name.as_str()) {
            Some(symbol) => Terminal(symbol.clone()),
            None => {
                self.terminals.insert(terminal_name.clone(), terminal_name.clone());
                self.terminal_names.insert(terminal_name.clone(), terminal_name.clone());
                Terminal(terminal_name)
            },
        }
    }

    /// The non-terminal named `non_terminal`, if the table holds one.
    #[must_use]
    pub fn get_non_terminal_id(&self, non_terminal: &str) -> (r: Option<NonTerminal>)
        requires
            self.wf(),
        ensures
            match r {
                Some(symbol) => self@.non_terminals.contains_key(non_terminal@) && symbol@
                    == self@.non_terminals[non_terminal@],
                None => !self@.non_terminals.contains_key(non_terminal@),
            },
    {
        match self.non_terminals.get(non_terminal) {
            Some(symbol) => Some(NonTerminal(symbol.clone())),
            None => None,
        }
    }

    /// The terminal named `terminal`, if the table holds one.
    #[must_use]
    pub fn get_terminal_id(&self, terminal: &str) -> (r: Option<Terminal>)
        requires
            self.wf(),
        ensures
            match r {
                Some(symbol) => self@.terminals.contains_key(terminal@) && symbol@
                    == self@.terminals[terminal@],
                None => !self@.terminals.contains_key(terminal@),
            },
    {
        match self.terminals.get(terminal) {
            Some(symbol) => Some(Terminal(symbol.clone())),
            None => None,
        }
    }

    /// The name under which the table shows `non_terminal`, if it holds it.
    pub fn get_non_terminal_name(&self, non_terminal: &NonTerminal) -> (r: Option<&str>)
        requires
            self.wf(),
        ensures
            match r {
                Some(name) => self@.non_terminal_names.contains_key(non_terminal@) && name@
                    == self@.non_terminal_names[non_terminal@],
                None => !self@.non_terminal_names.contains_key(non_terminal@),
            },
    {
        match self.non_terminal_names.get(non_terminal.0.as_str()) {
            Some(name) => Some(name.as_str()),
            None => None,
        }
    }

    /// The name under which the table shows `terminal`, if it holds it.
    pub fn get_terminal_name(&self, terminal: &Terminal) -> (r: Option<&str>)
        requires
            self.wf(),
        ensures
            match r {
                Some(name) => self@.terminal_names.contains_key(terminal@) && name@
                    == self@.terminal_names[terminal@],
                None => !self@.terminal_names.contains_key(terminal@),
            },
    {
        match self.terminal_names.get(terminal.0.as_str()) {
            Some(name) => Some(name.as_str()),
            None => None,
        }
    }
}

} // verus!
