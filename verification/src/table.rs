//! A table from names to values that keeps its entries in the order in which the
//! names were first entered.

use vstd::prelude::*;

verus! {

/// Whether no name occurs twice in `names`.
pub open spec fn all_distinct(names: Seq<Seq<char>>) -> bool {
    forall|i: int, j: int| 0 <= i < j < names.len() ==> names[i] != names[j]
}

spec fn names_of<V>(entries: Seq<(String, V)>) -> Seq<Seq<char>> {
    Seq::new(entries.len(), |i: int| entries[i].0@)
}

spec fn values_of<V>(entries: Seq<(String, V)>) -> Seq<V> {
    Seq::new(entries.len(), |i: int| entries[i].1)
}

/// A table from names to values. No name occurs twice, and the entries stand in the
/// order in which their names were first entered.
#[derive(Debug)]
pub struct NameTable<V> {
    entries: Vec<(String, V)>,
}

impl<V> NameTable<V> {
    /// The names of the entries, in the table's order.
    pub closed spec fn names(&self) -> Seq<Seq<char>> {
        names_of(self.entries@)
    }

    /// The values of the entries, in the table's order.
    pub closed spec fn values(&self) -> Seq<V> {
        values_of(self.entries@)
    }

    /// What holds of every table: one value for each name, and no name twice.
    #[verifier::type_invariant]
    pub open spec fn wf(&self) -> bool {
        &&& self.names().len() == self.values().len()
        &&& all_distinct(self.names())
    }

    /// Whether the table has an entry for `name`.
    pub open spec fn has(&self, name: Seq<char>) -> bool {
        self.names().contains(name)
    }

    /// The value entered for `name`, where the table has one.
    pub open spec fn value_of(&self, name: Seq<char>) -> V
        recommends
            self.has(name),
    {
        self.values()[self.names().index_of(name)]
    }

    /// An empty table.
    pub fn new() -> (r: Self)
        ensures
            r.names() == Seq::<Seq<char>>::empty(),
            r.values() == Seq::<V>::empty(),
            r.wf(),
    {
        let r = NameTable { entries: Vec::new() };
        assert(r.names() =~= Seq::<Seq<char>>::empty());
        assert(r.values() =~= Seq::<V>::empty());
        r
    }

    /// The number of entries.
    pub fn len(&self) -> (r: usize)
        ensures
            r == self.names().len(),
            r == self.values().len(),
    {
        self.entries.len()
    }

    /// The name of the entry at `index`.
    pub fn name_at(&self, index: usize) -> (r: &String)
        requires
            index < self.names().len(),
        ensures
            r@ == self.names()[index as int],
    {
        &self.entries[index].0
    }

    /// The value of the entry at `index`.
    pub fn value_at(&self, index: usize) -> (r: &V)
        requires
            index < self.names().len(),
        ensures
            *r == self.values()[index as int],
    {
        &self.entries[index].1
    }

    /// The place of the entry for `name`, if the table has one.
    pub fn find(&self, name: &String) -> (r: Option<usize>)
        ensures
            match r {
                Some(i) => i < self.names().len() && self.names()[i as int] == name@,
                None => !self.has(name@),
            },
    {
        let n = self.entries.len();
        let mut i: usize = 0;
        while i < n
            invariant
                n == self.entries@.len(),
                i <= n,
                forall|k: int| 0 <= k < i ==> self.names()[k] != name@,
            decreases n - i,
        {
            if self.entries[i].0 == *name {
                return Some(i);
            }
            i += 1;
        }
        None
    }

    /// The value entered for `name`, if the table has one.
    pub fn get(&self, name: &String) -> (r: Option<&V>)
        ensures
            match r {
                Some(v) => self.has(name@) && *v == self.value_of(name@),
                None => !self.has(name@),
            },
    {
        proof {
            use_type_invariant(self);
        }
        match self.find(name) {
            Some(i) => {
                proof {
                    self.lemma_value_at(i as int);
                }
                Some(&self.entries[i].1)
            },
            None => None,
        }
    }

    /// Puts `value` in place of the value of the entry at `index`.
    pub fn set_value_at(&mut self, index: usize, value: V)
        requires
            index < old(self).names().len(),
        ensures
            final(self).names() == old(self).names(),
            final(self).values() == old(self).values().update(index as int, value),
            final(self).wf(),
    {
        proof {
            use_type_invariant(&*self);
        }
        let mut entries: Vec<(String, V)> = Vec::new();
        std::mem::swap(&mut self.entries, &mut entries);
        let name = entries[index].0.clone();
        entries.set(index, (name, value));
        assert(names_of(entries@) =~= old(self).names());
        assert(values_of(entries@) =~= old(self).values().update(index as int, value));
        std::mem::swap(&mut self.entries, &mut entries);
    }

    /// Enters `value` for `name`: in place of the value that `name` had, or, for a
    /// name that the table does not have yet, as a new last entry.
    pub fn insert(&mut self, name: String, value: V)
        ensures
            final(self).wf(),
            old(self).has(name@) ==> final(self).names() == old(self).names()
                && final(self).values() == old(self).values().update(
                old(self).names().index_of(name@),
                value,
            ),
            !old(self).has(name@) ==> final(self).names() == old(self).names().push(name@)
                && final(self).values() == old(self).values().push(value),
            final(self)@ == old(self)@.insert(name@, value),
    {
        proof {
            use_type_invariant(&*self);
        }
        let ghost before = *self;
        let place = self.find(&name);
        let mut entries: Vec<(String, V)> = Vec::new();
        std::mem::swap(&mut self.entries, &mut entries);
        match place {
            Some(i) => {
                proof {
                    before.lemma_value_at(i as int);
                }
                entries.set(i, (name, value));
                assert(names_of(entries@) =~= before.names());
                assert(values_of(entries@) =~= before.values().update(i as int, value));
                std::mem::swap(&mut self.entries, &mut entries);
            },
            None => {
                entries.push((name, value));
                assert(names_of(entries@) =~= before.names().push(name@));
                assert(values_of(entries@) =~= before.values().push(value));
                std::mem::swap(&mut self.entries, &mut entries);
            },
        }
        proof {
            before.lemma_insert_view(*self, name@, value);
        }
    }

    /// What `insert` does to the names and values is, seen as a map, an insertion.
    pub proof fn lemma_insert_view(&self, after: Self, name: Seq<char>, value: V)
        requires
            self.wf(),
            self.has(name) ==> after.names() == self.names() && after.values()
                == self.values().update(self.names().index_of(name), value),
            !self.has(name) ==> after.names() == self.names().push(name) && after.values()
                == self.values().push(value),
        ensures
            after.wf(),
            after@ == self@.insert(name, value),
    {
        if self.has(name) {
            let k = self.names().index_of(name);
            assert(self.names()[k] == name);
            assert forall|other: Seq<char>| after.has(other) implies #[trigger] after.value_of(other)
                == (if other == name { value } else { self.value_of(other) }) by {
                let j = self.names().index_of(other);
                assert(self.names()[j] == other);
                self.lemma_value_at(j);
            }
        } else {
            assert forall|other: Seq<char>| after.has(other) implies (other == name || self.has(
                other,
            )) && #[trigger] after.value_of(other) == (if other == name { value } else {
                self.value_of(other)
            }) by {
                let j = after.names().index_of(other);
                assert(after.names()[j] == other);
                after.lemma_value_at(j);
                if j < self.names().len() {
                    assert(self.names()[j] == other);
                    self.lemma_value_at(j);
                }
            }
            assert(after.names().last() == name);
            assert forall|other: Seq<char>| self.has(other) implies after.has(other) by {
                let j = self.names().index_of(other);
                assert(after.names()[j] == other);
            }
        }
        assert(after@.dom() =~= self@.insert(name, value).dom());
        assert(after@ =~= self@.insert(name, value));
    }

    /// In a table, the value of the name at a place is the value at that place.
    pub proof fn lemma_value_at(&self, i: int)
        requires
            self.wf(),
            0 <= i < self.names().len(),
        ensures
            self.has(self.names()[i]),
            self.value_of(self.names()[i]) == self.values()[i],
    {
        let name = self.names()[i];
        assert(self.names().contains(name));
        let k = self.names().index_of(name);
        assert(self.names()[k] == name);
        assert(k == i);
    }
}

impl<V> View for NameTable<V> {
    type V = Map<Seq<char>, V>;

    /// The table as a map from each name to its value.
    open spec fn view(&self) -> Map<Seq<char>, V> {
        Map::new(|name: Seq<char>| self.has(name), |name: Seq<char>| self.value_of(name))
    }
}

impl<V: Clone> Clone for NameTable<V> {
    /// A table with the same names in the same order, under clones of their values.
    fn clone(&self) -> (r: Self)
        ensures
            r.wf(),
            r.names() == self.names(),
            r.values().len() == self.values().len(),
            forall|i: int|
                0 <= i < self.values().len() ==> cloned::<V>(
                    self.values()[i],
                    #[trigger] r.values()[i],
                ),
    {
        proof {
            use_type_invariant(self);
        }
        let n = self.entries.len();
        let mut entries: Vec<(String, V)> = Vec::new();
        let mut i: usize = 0;
        while i < n
            invariant
                n == self.entries@.len(),
                i <= n,
                entries@.len() == i,
                forall|k: int| 0 <= k < i ==> (#[trigger] entries@[k]).0@ == self.entries@[k].0@,
                forall|k: int|
                    0 <= k < i ==> cloned::<V>(self.entries@[k].1, (#[trigger] entries@[k]).1),
            decreases n - i,
        {
            let name = self.entries[i].0.clone();
            let value = self.entries[i].1.clone();
            entries.push((name, value));
            i += 1;
        }
        assert(names_of(entries@) =~= self.names());
        NameTable { entries }
    }
}

} // verus!
