//! A map from names to names that keeps its entries in the order in which
//! their keys first came.

use vstd::prelude::*;

verus! {

/// The place of the first name in `names` that reads `name`, if there is one.
pub fn position_of(names: &Vec<String>, name: &str) -> (r: Option<usize>)
    ensures
        match r {
            Some(i) => i < names.len() && names@[i as int]@ == name@ && forall|k: int|
                0 <= k < i ==> names@[k]@ != name@,
            None => forall|k: int| 0 <= k < names.len() ==> names@[k]@ != name@,
        },
{
    let wanted = String::from_str(name);
    let mut i: usize = 0;
    while i < names.len()
        invariant
            i <= names.len(),
            wanted@ == name@,
            forall|k: int| 0 <= k < i ==> names@[k]@ != name@,
        decreases names.len() - i,
    {
        if names[i] == wanted {
            return Some(i);
        }
        i += 1;
    }
    None
}

/// A finite map from names to names.
#[derive(Debug, Default)]
pub struct NameMap {
    keys: Vec<String>,
    values: Vec<String>,
}

impl NameMap {
    /// Every key has a value, and no key occurs twice.
    pub closed spec fn wf(&self) -> bool {
        &&& self.keys.len() == self.values.len()
        &&& forall|i: int, j: int|
            0 <= i < j < self.keys.len() ==> self.keys@[i]@ != self.keys@[j]@
    }

    closed spec fn place(&self, key: Seq<char>) -> int {
        choose|i: int| 0 <= i < self.keys.len() && self.keys@[i]@ == key
    }

    /// The map that the entries stand for.
    pub closed spec fn view(&self) -> Map<Seq<char>, Seq<char>> {
        Map::new(
            |key: Seq<char>| exists|i: int| 0 <= i < self.keys.len() && self.keys@[i]@ == key,
            |key: Seq<char>| self.values@[self.place(key)]@,
        )
    }

    /// The keys in the order in which they first came.
    pub closed spec fn key_order(&self) -> Seq<Seq<char>> {
        Seq::new(self.keys@.len(), |i: int| self.keys@[i]@)
    }

    proof fn lemma_entry(&self, i: int)
        requires
            self.wf(),
            0 <= i < self.keys.len(),
        ensures
            self@.contains_key(self.keys@[i]@),
            self@[self.keys@[i]@] == self.values@[i]@,
    {
        let key = self.keys@[i]@;
        assert(0 <= i < self.keys.len() && self.keys@[i]@ == key);
        let p = self.place(key);
        assert(p == i) by {
            if p < i {
                assert(self.keys@[p]@ != self.keys@[i]@);
            } else if i < p {
                assert(self.keys@[i]@ != self.keys@[p]@);
            }
        }
    }

    /// The empty map.
    pub fn new() -> (r: Self)
        ensures
            r.wf(),
            r@ == Map::<Seq<char>, Seq<char>>::empty(),
            r.key_order() == Seq::<Seq<char>>::empty(),
    {
        let r = NameMap { keys: Vec::new(), values: Vec::new() };
        assert(r@ =~= Map::<Seq<char>, Seq<char>>::empty());
        assert(r.key_order() =~= Seq::<Seq<char>>::empty());
        r
    }

    /// The number of entries.
    pub fn len(&self) -> (n: usize)
        requires
            self.wf(),
        ensures
            n == self.key_order().len(),
    {
        self.keys.len()
    }

    /// The value stored under `key`, if there is one.
    pub fn get(&self, key: &str) -> (r: Option<&String>)
        requires
            self.wf(),
        ensures
            match r {
                Some(value) => self@.contains_key(key@) && value@ == self@[key@],
                None => !self@.contains_key(key@),
            },
    {
        match position_of(&self.keys, key) {
            Some(i) => {
                proof {
                    self.lemma_entry(i as int);
                }
                Some(&self.values[i])
            },
            None => None,
        }
    }

    /// Whether a value is stored under `key`.
    pub fn contains_key(&self, key: &str) -> (b: bool)
        requires
            self.wf(),
        ensures
            b == self@.contains_key(key@),
    {
        self.get(key).is_some()
    }

    /// Stores `value` under `key`, in place of what was stored there before.
    pub fn insert(&mut self, key: String, value: String)
        requires
            old(self).wf(),
        ensures
            final(self).wf(),
            final(self)@ == old(self)@.insert(key@, value@),
            final(self).key_order() == if old(self)@.contains_key(key@) {
                old(self).key_order()
            } else {
                old(self).key_order().push(key@)
            },
    {
        let ghost before = *self;
        match position_of(&self.keys, key.as_str()) {
            Some(i) => {
                self.values[i] = value;
                proof {
                    assert(self.wf());
                    assert(self.key_order() =~= before.key_order());
                    assert forall|k: Seq<char>| self@.contains_key(k) implies #[trigger] self@[k]
                        == before@.insert(key@, value@)[k] by {
                        let p = choose|p: int| 0 <= p < self.keys.len() && self.keys@[p]@ == k;
                        self.lemma_entry(p);
                        before.lemma_entry(p);
                    }
                    before.lemma_entry(i as int);
                    assert(self@ =~= before@.insert(key@, value@));
                }
            },
            None => {
                self.keys.push(key);
                self.values.push(value);
                proof {
                    assert(self.wf());
                    assert(!before@.contains_key(key@));
                    assert(self.key_order() =~= before.key_order().push(key@));
                    let last = before.keys.len() as int;
                    assert(self.keys@[last]@ == key@);
                    assert forall|k: Seq<char>|
                        before@.insert(key@, value@).contains_key(k) implies self@.contains_key(
                        k,
                    ) by {
                        if k != key@ {
                            let p = choose|p: int|
                                0 <= p < before.keys.len() && before.keys@[p]@ == k;
                            assert(self.keys@[p]@ == k);
                        }
                    }
                    assert forall|k: Seq<char>| self@.contains_key(k) implies #[trigger] self@[k]
                        == before@.insert(key@, value@)[k] && before@.insert(
                        key@,
                        value@,
                    ).contains_key(k) by {
                        let p = choose|p: int| 0 <= p < self.keys.len() && self.keys@[p]@ == k;
                        self.lemma_entry(p);
                        if p < last {
                            before.lemma_entry(p);
                        }
                    }
                    assert(self@ =~= before@.insert(key@, value@));
                }
            },
        }
    }
}

} // verus!
