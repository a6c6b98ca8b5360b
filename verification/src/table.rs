//! A small map from names to values, kept in a vector in the order in which
//! the names came. No name occurs twice: that is the type's invariant, so a
//! table is a `Map` from the text of a name to the view of its value, and it
//! can be walked by position as well.

use vstd::prelude::*;
use vstd::string::*;
use crate::text::same_text;

verus! {

pub struct Table<V> {
    entries: Vec<(String, V)>,
}

impl<V: View> View for Table<V> {
    type V = Map<Seq<char>, V::V>;

    /// Each name with the view of the value that stands beside it.
    closed spec fn view(&self) -> Map<Seq<char>, V::V> {
        Map::new(
            |name: Seq<char>| self.names().contains(name),
            |name: Seq<char>| self.values()[self.names().index_of(name)]@,
        )
    }
}

/// The names of a sequence of entries.
spec fn entry_names<V>(entries: Seq<(String, V)>) -> Seq<Seq<char>> {
    Seq::new(entries.len(), |i: int| entries[i].0@)
}

impl<V> Table<V> {
    /// The names, in the order of the table.
    pub closed spec fn names(&self) -> Seq<Seq<char>> {
        entry_names(self.entries@)
    }

    /// The values, each at the position of its name.
    pub closed spec fn values(&self) -> Seq<V> {
        Seq::new(self.entries@.len(), |i: int| self.entries@[i].1)
    }

    #[verifier::type_invariant]
    closed spec fn distinct(&self) -> bool {
        self.names().no_duplicates()
    }
}

impl<V: View> Table<V> {
    /// How positions and the map belong together: what stands at a position
    /// is what the map holds under that position's name, and the map holds
    /// nothing else.
    pub open spec fn well_formed(&self) -> bool {
        &&& self.names().len() == self.values().len()
        &&& self.names().no_duplicates()
        &&& self@.dom() =~= self.names().to_set()
        &&& forall|i: int|
            0 <= i < self.names().len() ==> #[trigger] self@[self.names()[i]] == self.values()[i]@
    }

    proof fn lemma_well_formed(&self)
        requires
            self.names().no_duplicates(),
        ensures
            self.well_formed(),
    {
        assert forall|i: int| 0 <= i < self.names().len() implies #[trigger] self@[self.names()[i]]
            == self.values()[i]@ by {
            assert(self.names().contains(self.names()[i]));
            assert(self.names().index_of(self.names()[i]) == i);
        }
    }

    /// Moves the entries out and leaves the table empty. A change is made
    /// on what was moved out and assigned back, so that the invariant is
    /// asked of the finished table only.
    fn move_out(&mut self) -> (entries: Vec<(String, V)>)
        ensures
            entries == old(self).entries,
            final(self).entries@.len() == 0,
    {
        let mut entries: Vec<(String, V)> = Vec::new();
        core::mem::swap(&mut self.entries, &mut entries);
        proof {
            assert(self.names() =~= Seq::<Seq<char>>::empty());
        }
        entries
    }

    /// A table that holds nothing.
    pub fn new() -> (t: Self)
        ensures
            t@ == Map::<Seq<char>, V::V>::empty(),
            t.names() == Seq::<Seq<char>>::empty(),
            t.well_formed(),
    {
        let t = Table { entries: Vec::new() };
        proof {
            assert(t.names() =~= Seq::<Seq<char>>::empty());
            assert(t@ =~= Map::<Seq<char>, V::V>::empty());
            t.lemma_well_formed();
        }
        t
    }

    /// The number of names.
    pub fn len(&self) -> (n: usize)
        ensures
            n == self.names().len(),
            self.well_formed(),
    {
        proof {
            use_type_invariant(self);
            self.lemma_well_formed();
        }
        self.entries.len()
    }

    /// The name at a position.
    pub fn name_at(&self, i: usize) -> (name: &String)
        requires
            i < self.names().len(),
        ensures
            name@ == self.names()[i as int],
    {
        &self.entries[i].0
    }

    /// The value at a position.
    pub fn value_at(&self, i: usize) -> (value: &V)
        requires
            i < self.names().len(),
        ensures
            *value == self.values()[i as int],
    {
        &self.entries[i].1
    }

    /// The position of a name.
    pub fn position(&self, name: &str) -> (at: Option<usize>)
        ensures
            self.well_formed(),
            match at {
                Some(i) => i < self.names().len() && self.names()[i as int] == name@,
                None => !self@.contains_key(name@),
            },
    {
        proof {
            use_type_invariant(self);
            self.lemma_well_formed();
        }
        let mut i: usize = 0;
        while i < self.entries.len()
            invariant
                i <= self.entries.len(),
                self.well_formed(),
                forall|j: int| 0 <= j < i ==> self.names()[j] != name@,
            decreases self.entries.len() - i,
        {
            if same_text(self.entries[i].0.as_str(), name) {
                return Some(i);
            }
            i += 1;
        }
        None
    }

    /// Whether the table holds a name.
    pub fn contains(&self, name: &str) -> (r: bool)
        ensures
            r == self@.contains_key(name@),
    {
        let at = self.position(name);
        proof {
            if at is Some {
                assert(self.names().contains(name@));
            }
        }
        at.is_some()
    }

    /// The value under a name.
    pub fn get(&self, name: &str) -> (r: Option<&V>)
        ensures
            match r {
                Some(value) => self@.contains_key(name@) && value@ == self@[name@],
                None => !self@.contains_key(name@),
            },
    {
        match self.position(name) {
            Some(i) => {
                assert(self.names().contains(name@));
                Some(&self.entries[i].1)
            },
            None => None,
        }
    }

    /// Puts a value under a name, in place of the one that stood there.
    pub fn insert(&mut self, name: String, value: V)
        ensures
            final(self)@ == old(self)@.insert(name@, value@),
            final(self).well_formed(),
            old(self)@.contains_key(name@) ==> final(self).names() == old(self).names(),
            !old(self)@.contains_key(name@) ==> final(self).names() == old(self).names().push(name@),
    {
        let ghost before = *self;
        proof {
            use_type_invariant(&*self);
            before.lemma_well_formed();
        }
        match self.position(name.as_str()) {
            Some(i) => {
                let mut entries = self.move_out();
                entries.set(i, (name, value));
                assert(entry_names(entries@) =~= before.names());
                self.entries = entries;
                proof {
                    assert(self.names() =~= before.names());
                    self.lemma_well_formed();
                    assert(self@ =~= before@.insert(name@, value@)) by {
                        assert forall|k: Seq<char>| self@.contains_key(k) implies #[trigger] self@[k]
                            == before@.insert(name@, value@)[k] by {
                            let j = self.names().index_of(k);
                            assert(self.names()[j] == k);
                            assert(before@[before.names()[j]] == before.values()[j]@);
                        }
                    }
                }
            },
            None => {
                let mut entries = self.move_out();
                entries.push((name, value));
                proof {
                    let names = entry_names(entries@);
                    assert(names =~= before.names().push(name@));
                    assert forall|i: int, j: int|
                        0 <= i < names.len() && 0 <= j < names.len() && i != j implies names[i]
                        != names[j] by {
                        if i < before.names().len() {
                            assert(before.names().contains(before.names()[i]));
                        }
                        if j < before.names().len() {
                            assert(before.names().contains(before.names()[j]));
                        }
                    }
                }
                self.entries = entries;
                proof {
                    self.lemma_well_formed();
                    assert(self@ =~= before@.insert(name@, value@)) by {
                        assert forall|k: Seq<char>| before@.insert(name@, value@).contains_key(
                            k,
                        ) implies self@.contains_key(k) by {
                            if k != name@ {
                                let j = before.names().index_of(k);
                                assert(self.names()[j] == k);
                            } else {
                                assert(self.names()[before.names().len() as int] == k);
                            }
                        }
                        assert forall|k: Seq<char>| self@.contains_key(k) implies #[trigger] self@[k]
                            == before@.insert(name@, value@)[k] by {
                            let j = self.names().index_of(k);
                            assert(self.names()[j] == k);
                            if j < before.names().len() {
                                assert(before.names().contains(k));
                                assert(before@[before.names()[j]] == before.values()[j]@);
                            }
                        }
                    }
                }
            },
        }
    }

    /// Takes a name and its value out.
    pub fn remove(&mut self, name: &str) -> (r: Option<V>)
        ensures
            final(self)@ == old(self)@.remove(name@),
            final(self).well_formed(),
            final(self).names().len() == old(self).names().len() - (if r is Some {
                1int
            } else {
                0int
            }),
            match r {
                Some(value) => old(self)@.contains_key(name@) && value@ == old(self)@[name@],
                None => !old(self)@.contains_key(name@),
            },
    {
        let ghost before = *self;
        proof {
            use_type_invariant(&*self);
            before.lemma_well_formed();
        }
        match self.position(name) {
            Some(i) => {
                let mut entries = self.move_out();
                let entry = entries.remove(i);
                assert(entry_names(entries@) =~= before.names().remove(i as int));
                self.entries = entries;
                proof {
                    assert(self.values() =~= before.values().remove(i as int));
                    assert(before.names().contains(name@));
                    assert(self.names().no_duplicates());
                    self.lemma_well_formed();
                    assert(self@ =~= before@.remove(name@)) by {
                        assert forall|k: Seq<char>| before@.remove(name@).contains_key(
                            k,
                        ) implies self@.contains_key(k) by {
                            let j = before.names().index_of(k);
                            assert(before.names()[j] == k);
                            if j < i {
                                assert(self.names()[j] == k);
                            } else {
                                assert(self.names()[j - 1] == k);
                            }
                        }
                        assert forall|k: Seq<char>| self@.contains_key(k) implies k != name@
                            && before@.contains_key(k) && #[trigger] self@[k] == before@[k] by {
                            let j = self.names().index_of(k);
                            assert(self.names()[j] == k);
                            if j < i {
                                assert(before.names()[j] == k);
                                assert(before@[before.names()[j]] == before.values()[j]@);
                            } else {
                                assert(before.names()[j + 1] == k);
                                assert(before@[before.names()[j + 1]] == before.values()[j + 1]@);
                            }
                        }
                    }
                }
                Some(entry.1)
            },
            None => {
                assert(self@ =~= before@.remove(name@));
                None
            },
        }
    }

    /// Takes everything out: each name with its value, in the order of the
    /// table.
    pub fn take_all(&mut self) -> (all: Vec<(String, V)>)
        ensures
            final(self)@ == Map::<Seq<char>, V::V>::empty(),
            final(self).names() == Seq::<Seq<char>>::empty(),
            final(self).well_formed(),
            old(self).well_formed(),
            all@.len() == old(self).names().len(),
            forall|i: int|
                0 <= i < all@.len() ==> (#[trigger] all@[i]).0@ == old(self).names()[i] && all@[i].1
                    == old(self).values()[i],
    {
        proof {
            use_type_invariant(&*self);
            self.lemma_well_formed();
        }
        let all = self.move_out();
        proof {
            assert(self.names() =~= Seq::<Seq<char>>::empty());
            assert(self@ =~= Map::<Seq<char>, V::V>::empty());
            self.lemma_well_formed();
        }
        all
    }
}

} // verus!
