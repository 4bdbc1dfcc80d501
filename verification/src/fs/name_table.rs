//! Tables keyed by file names.

use crate::assoc::{
    as_map, lemma_empty, lemma_entry, lemma_finite, lemma_push, lemma_remove, lemma_update,
};
use vstd::prelude::*;

verus! {

/// The names of the entries.
spec fn keys<V>(entries: Seq<(String, V)>) -> Seq<Seq<char>> {
    entries.map_values(|entry: (String, V)| entry.0@)
}

/// The values of the entries.
spec fn values<V: View>(entries: Seq<(String, V)>) -> Seq<V::V> {
    entries.map_values(|entry: (String, V)| entry.1@)
}

/// A map from file names.
pub struct NameTable<V> {
    entries: Vec<(String, V)>,
}

impl<V> NameTable<V> {
    /// Each name stands for one value.
    #[verifier::type_invariant]
    spec fn one_value_per_name(&self) -> bool {
        keys(self.entries@).no_duplicates()
    }
}

impl<V: View> View for NameTable<V> {
    type V = Map<Seq<char>, V::V>;

    closed spec fn view(&self) -> Map<Seq<char>, V::V> {
        as_map(keys(self.entries@), values(self.entries@))
    }
}

/// The names of the first `n` entries with the value `target`.
spec fn names_with<V: View>(entries: Seq<(String, V)>, target: V::V, n: int) -> Set<Seq<char>> {
    Set::new(
        |name: Seq<char>|
            exists|i: int|
                0 <= i < n && #[trigger] keys(entries)[i] == name && values(entries)[i] == target,
    )
}

impl<V: View> NameTable<V> {
    /// A table without names.
    pub fn new() -> (result: NameTable<V>)
        ensures
            result@ == Map::<Seq<char>, V::V>::empty(),
    {
        let result = NameTable { entries: Vec::new() };
        proof {
            lemma_empty(keys(result.entries@), values(result.entries@));
        }
        result
    }

    /// Where `name` stands.
    fn find(&self, name: &String) -> (result: Option<usize>)
        ensures
            match result {
                Some(i) => i < self.entries.len() && keys(self.entries@)[i as int] == name@,
                None => !keys(self.entries@).contains(name@),
            },
    {
        let mut i: usize = 0;
        while i < self.entries.len()
            invariant
                i <= self.entries.len(),
                forall|k: int| 0 <= k < i ==> #[trigger] keys(self.entries@)[k] != name@,
            decreases self.entries.len() - i,
        {
            if self.entries[i].0 == *name {
                return Some(i);
            }
            i = i + 1;
        }
        None
    }

    /// The value of `name`.
    pub fn get(&self, name: &String) -> (result: Option<&V>)
        ensures
            match result {
                Some(value) => self@.contains_key(name@) && self@[name@] == value@,
                None => !self@.contains_key(name@),
            },
    {
        proof {
            use_type_invariant(&*self);
        }
        match self.find(name) {
            Some(i) => {
                proof {
                    lemma_entry(keys(self.entries@), values(self.entries@), i as int);
                }
                Some(&self.entries[i].1)
            },
            None => None,
        }
    }

    /// Gives `name` the value `value`.
    pub fn insert(&mut self, name: String, value: V)
        ensures
            final(self)@ == old(self)@.insert(name@, value@),
    {
        proof {
            use_type_invariant(&*self);
        }
        let ghost names = keys(self.entries@);
        let ghost held = values(self.entries@);
        let found = self.find(&name);
        let mut entries: Vec<(String, V)> = Vec::new();
        std::mem::swap(&mut entries, &mut self.entries);
        match found {
            Some(i) => {
                proof {
                    lemma_update(names, held, i as int, value@);
                }
                entries[i] = (name, value);
                assert(keys(entries@) =~= names);
                assert(values(entries@) =~= held.update(i as int, value@));
            },
            None => {
                proof {
                    lemma_push(names, held, name@, value@);
                }
                entries.push((name, value));
                assert(keys(entries@) =~= names.push(name@));
                assert(values(entries@) =~= held.push(value@));
            },
        }
        self.entries = entries;
    }

    /// Takes `name` out, and returns the value that it had.
    pub fn remove(&mut self, name: &String) -> (result: Option<V>)
        ensures
            final(self)@ == old(self)@.remove(name@),
            match result {
                Some(value) => old(self)@.contains_key(name@) && old(self)@[name@] == value@,
                None => !old(self)@.contains_key(name@),
            },
    {
        proof {
            use_type_invariant(&*self);
        }
        let ghost names = keys(self.entries@);
        let ghost held = values(self.entries@);
        match self.find(name) {
            Some(at) => {
                proof {
                    lemma_entry(names, held, at as int);
                    lemma_remove(names, held, at as int);
                }
                let mut entries: Vec<(String, V)> = Vec::new();
                std::mem::swap(&mut entries, &mut self.entries);
                let entry = entries.remove(at);
                assert(keys(entries@) =~= names.remove(at as int));
                assert(values(entries@) =~= held.remove(at as int));
                self.entries = entries;
                Some(entry.1)
            },
            None => {
                assert(self@ =~= self@.remove(name@));
                None
            },
        }
    }
}

impl NameTable<usize> {
    /// A name with the value `value`.
    pub fn name_of(&self, value: usize) -> (result: Option<String>)
        ensures
            match result {
                Some(name) => self@.contains_key(name@) && self@[name@] == value,
                None => forall|name: Seq<char>|
                    #[trigger] self@.contains_key(name) ==> self@[name] != value,
            },
    {
        proof {
            use_type_invariant(&*self);
        }
        let ghost names = keys(self.entries@);
        let ghost held = values(self.entries@);
        let mut i: usize = 0;
        while i < self.entries.len()
            invariant
                names == keys(self.entries@),
                held == values(self.entries@),
                names.no_duplicates(),
                i <= self.entries.len(),
                forall|k: int| 0 <= k < i ==> #[trigger] held[k] != value,
            decreases self.entries.len() - i,
        {
            proof {
                lemma_entry(names, held, i as int);
            }
            if self.entries[i].1 == value {
                return Some(self.entries[i].0.clone());
            }
            assert(held[i as int] != value);
            i = i + 1;
        }
        None
    }
}

impl NameTable<String> {
    /// How many names have the value `target`.
    pub fn count_of(&self, target: &String) -> (result: usize)
        ensures
            self@.dom().finite(),
            result == self@.dom().filter(|name: Seq<char>| self@[name] == target@).len(),
    {
        proof {
            use_type_invariant(&*self);
            lemma_finite(keys(self.entries@), values(self.entries@));
        }
        let ghost names = keys(self.entries@);
        let ghost held = values(self.entries@);
        let mut count: usize = 0;
        let mut i: usize = 0;
        assert(names_with(self.entries@, target@, 0) =~= Set::<Seq<char>>::empty());
        while i < self.entries.len()
            invariant
                names == keys(self.entries@),
                held == values(self.entries@),
                names.no_duplicates(),
                count <= i <= self.entries.len(),
                names_with(self.entries@, target@, i as int).finite(),
                count == names_with(self.entries@, target@, i as int).len(),
            decreases self.entries.len() - i,
        {
            let ghost seen = names_with(self.entries@, target@, i as int);
            let ghost next = names_with(self.entries@, target@, i + 1);
            let ghost name = names[i as int];
            assert(!seen.contains(name));
            if self.entries[i].1 == *target {
                assert(held[i as int] == target@);
                assert(next =~= seen.insert(name));
                count = count + 1;
            } else {
                assert(held[i as int] != target@);
                assert(next =~= seen);
            }
            i = i + 1;
        }
        proof {
            let seen = names_with(self.entries@, target@, i as int);
            let wanted = self@.dom().filter(|name: Seq<char>| self@[name] == target@);
            assert forall|name: Seq<char>| seen.contains(name) <==> wanted.contains(name) by {
                if seen.contains(name) {
                    let k = choose|k: int|
                        0 <= k < i && #[trigger] names[k] == name && held[k] == target@;
                    lemma_entry(names, held, k);
                }
                if wanted.contains(name) {
                    let k = names.index_of(name);
                    assert(names[k] == name);
                    lemma_entry(names, held, k);
                }
            }
            assert(seen =~= wanted);
        }
        count
    }
}

} // verus!
