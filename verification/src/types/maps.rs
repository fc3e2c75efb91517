//! Maps keyed by a name.

use crate::text::{
    chars_of, comes_before, lemma_lex_irreflexive, lemma_lex_total, lemma_lex_transitive, lex_less,
    names_ascending,
};
use vstd::prelude::*;
use vstd::string::*;

verus! {

/// A finite map from names (test names, file paths) to values. It keeps its
/// entries in the order in which their names were first inserted.
#[derive(Debug)]
pub struct NameMap<V> {
    entries: Vec<(String, V)>,
}

/// The names of a sequence of entries.
pub open spec fn entry_names<V>(entries: Seq<(String, V)>) -> Seq<Seq<char>> {
    Seq::new(entries.len(), |i: int| entries[i].0@)
}

/// The values of a sequence of entries.
pub open spec fn entry_values<V>(entries: Seq<(String, V)>) -> Seq<V> {
    Seq::new(entries.len(), |i: int| entries[i].1)
}

impl<V> View for NameMap<V> {
    type V = Map<Seq<char>, V>;

    /// The map from each name to its value.
    open spec fn view(&self) -> Map<Seq<char>, V> {
        Map::new(
            |name: Seq<char>| self.names().contains(name),
            |name: Seq<char>| self.values()[self.names().index_of(name)],
        )
    }
}

impl<V> NameMap<V> {
    #[verifier::type_invariant]
    spec fn inv(self) -> bool {
        self.names().no_duplicates()
    }

    /// The names, in the order of the entries.
    pub closed spec fn names(self) -> Seq<Seq<char>> {
        entry_names(self.entries@)
    }

    /// The values, in the order of the entries.
    pub closed spec fn values(self) -> Seq<V> {
        entry_values(self.entries@)
    }

    /// Names and values have the same length.
    pub broadcast proof fn lemma_same_len(self)
        ensures
            #[trigger] self.names().len() == self.values().len(),
    {
    }

    /// Entry `i` is what the map holds under the name of entry `i`.
    pub proof fn lemma_entry(self, i: int)
        requires
            self.names().no_duplicates(),
            0 <= i < self.names().len(),
        ensures
            self@.contains_key(self.names()[i]),
            self@[self.names()[i]] == self.values()[i],
    {
        let name = self.names()[i];
        assert(self.names().contains(name));
        let j = self.names().index_of(name);
        assert(self.names()[j] == name);
    }

    /// The empty map.
    pub fn new() -> (out: NameMap<V>)
        ensures
            out.names() == Seq::<Seq<char>>::empty(),
            out.values() == Seq::<V>::empty(),
            out@ == Map::<Seq<char>, V>::empty(),
    {
        let out = NameMap { entries: Vec::new() };
        assert(out.names() =~= Seq::<Seq<char>>::empty());
        assert(out.values() =~= Seq::<V>::empty());
        assert(out@ =~= Map::<Seq<char>, V>::empty());
        out
    }

    /// The number of entries. No name occurs twice among them.
    pub fn len(&self) -> (n: usize)
        ensures
            n == self.names().len(),
            n == self.values().len(),
            self.names().no_duplicates(),
    {
        proof {
            use_type_invariant(self);
        }
        self.entries.len()
    }

    /// The name of entry `i`.
    pub fn name_at(&self, i: usize) -> (name: &String)
        requires
            i < self.names().len(),
        ensures
            name@ == self.names()[i as int],
            self.names().no_duplicates(),
    {
        proof {
            use_type_invariant(self);
        }
        &self.entries[i].0
    }

    /// The value of entry `i`.
    pub fn value_at(&self, i: usize) -> (value: &V)
        requires
            i < self.names().len(),
        ensures
            *value == self.values()[i as int],
            self.names().no_duplicates(),
    {
        proof {
            use_type_invariant(self);
        }
        &self.entries[i].1
    }

    /// The index of the entry named `name`, if there is one.
    pub fn find(&self, name: &String) -> (found: Option<usize>)
        ensures
            match found {
                Some(i) => i < self.names().len() && self.names()[i as int] == name@,
                None => !self.names().contains(name@),
            },
    {
        let mut i: usize = 0;
        while i < self.entries.len()
            invariant
                i <= self.entries.len(),
                forall|k: int| 0 <= k < i ==> self.names()[k] != name@,
            decreases self.entries.len() - i,
        {
            if self.entries[i].0 == *name {
                return Some(i);
            }
            i += 1;
        }
        None
    }

    /// The value stored under `name`, if there is one.
    pub fn get(&self, name: &String) -> (value: Option<&V>)
        ensures
            match value {
                Some(v) => self@.contains_key(name@) && *v == self@[name@],
                None => !self@.contains_key(name@),
            },
    {
        proof {
            use_type_invariant(self);
        }
        match self.find(name) {
            Some(i) => {
                proof {
                    self.names().index_of_first_ensures(name@);
                    assert(self.names().contains(name@));
                    let j = self.names().index_of(name@);
                    assert(self.names()[j] == name@);
                    assert(j == i);
                }
                Some(&self.entries[i].1)
            },
            None => None,
        }
    }

    /// Stores `value` under `name`. A value stored under that name before
    /// is replaced, and the entry keeps its place; a new name goes to the end.
    pub fn insert(&mut self, name: String, value: V)
        ensures
            final(self)@ == old(self)@.insert(name@, value),
            old(self).names().contains(name@) ==> final(self).names() == old(self).names()
                && final(self).values() == old(self).values().update(
                old(self).names().index_of(name@),
                value,
            ),
            !old(self).names().contains(name@) ==> final(self).names() == old(self).names().push(
                name@,
            ) && final(self).values() == old(self).values().push(value),
    {
        proof {
            use_type_invariant(&*self);
        }
        let found = self.find(&name);
        let mut taken: NameMap<V> = NameMap::new();
        core::mem::swap(self, &mut taken);
        let ghost before = taken;
        let mut entries = taken.entries;
        match found {
            Some(i) => {
                proof {
                    let j = before.names().index_of(name@);
                    assert(before.names().contains(name@));
                    assert(before.names()[j] == name@);
                    assert(j == i);
                }
                entries.set(i, (name, value));
                assert(entry_names(entries@) =~= before.names());
                let fresh = NameMap { entries };
                assert(fresh.names() =~= before.names());
                assert(fresh.values() =~= before.values().update(i as int, value));
                assert(fresh@ =~= before@.insert(name@, value)) by {
                    assert forall|k: Seq<char>| fresh@.contains_key(k) implies fresh@[k]
                        == before@.insert(name@, value)[k] by {
                        let j = fresh.names().index_of(k);
                        assert(fresh.names()[j] == k);
                    }
                }
                *self = fresh;
            },
            None => {
                entries.push((name, value));
                assert(entry_names(entries@) =~= before.names().push(name@));
                let fresh = NameMap { entries };
                assert(fresh.names() =~= before.names().push(name@));
                assert(fresh.values() =~= before.values().push(value));
                assert(fresh.names().no_duplicates());
                assert(fresh@ =~= before@.insert(name@, value)) by {
                    assert forall|k: Seq<char>| fresh@.contains_key(k) <==> before@.insert(
                        name@,
                        value,
                    ).contains_key(k) by {
                        if fresh.names().contains(k) {
                            let j = choose|j: int|
                                0 <= j < fresh.names().len() && fresh.names()[j] == k;
                            if j < before.names().len() {
                                assert(before.names()[j] == k);
                            }
                        }
                        if before.names().contains(k) {
                            let j = choose|j: int|
                                0 <= j < before.names().len() && before.names()[j] == k;
                            assert(fresh.names()[j] == k);
                        }
                        if k == name@ {
                            assert(fresh.names()[before.names().len() as int] == k);
                        }
                    }
                    assert forall|k: Seq<char>| fresh@.contains_key(k) implies fresh@[k]
                        == before@.insert(name@, value)[k] by {
                        let j = fresh.names().index_of(k);
                        assert(fresh.names()[j] == k);
                        if k != name@ {
                            assert(before.names()[j] == k);
                            let j2 = before.names().index_of(k);
                            assert(before.names()[j2] == k);
                            assert(fresh.names()[j2] == k);
                        } else {
                            assert(fresh.names()[before.names().len() as int] == k);
                        }
                    }
                }
                *self = fresh;
            },
        }
    }

    /// The same map with its entries in ascending order of their names.
    pub fn into_sorted(self) -> (out: NameMap<V>)
        ensures
            out@ == self@,
            names_ascending(out.names()),
            out.names().len() == self.names().len(),
    {
        proof {
            use_type_invariant(&self);
        }
        let ghost orig = self.entries@;
        let mut rest = self.entries;
        let mut sorted: Vec<(String, V)> = Vec::new();
        while rest.len() > 0
            invariant
                entry_names(orig).no_duplicates(),
                rest@ == orig.take(rest@.len() as int),
                rest@.len() <= orig.len(),
                sorted@.len() == orig.len() - rest@.len(),
                names_ascending(entry_names(sorted@)),
                forall|i: int| rest@.len() <= i < orig.len() ==> sorted@.contains(#[trigger] orig[i]),
                forall|p: int|
                    0 <= p < sorted@.len() ==> exists|i: int|
                        rest@.len() <= i < orig.len() && orig[i] == #[trigger] sorted@[p],
            decreases rest.len(),
        {
            let ghost k = rest@.len() - 1;
            let item = rest.pop().unwrap();
            assert(item == orig[k]);
            let key = chars_of(item.0.as_str());
            let ghost before = sorted@;
            let mut at: usize = 0;
            let mut found: bool = false;
            while at < sorted.len() && !found
                invariant
                    at <= sorted.len(),
                    sorted@ == before,
                    key@ == item.0@,
                    forall|q: int| 0 <= q < at ==> lex_less(entry_names(before)[q], key@),
                    found ==> at < sorted.len() && !lex_less(entry_names(before)[at as int], key@),
                decreases sorted.len() - at + if found { 0int } else { 1int },
            {
                let current = chars_of(sorted[at].0.as_str());
                assert(entry_names(before)[at as int] == current@);
                if comes_before(&current, &key) {
                    at += 1;
                } else {
                    found = true;
                }
            }
            proof {
                let names = entry_names(before);
                assert forall|q: int| at <= q < names.len() implies lex_less(key@, names[q]) by {
                    lemma_lex_total(names[at as int], key@);
                    if names[at as int] == key@ {
                        let i = choose|i: int|
                            rest@.len() + 1 <= i < orig.len() && orig[i] == before[at as int];
                        assert(entry_names(orig)[i] == entry_names(orig)[k]);
                    }
                    if q > at {
                        lemma_lex_transitive(key@, names[at as int], names[q]);
                    }
                }
            }
            sorted.insert(at, item);
            proof {
                let after = sorted@;
                let names = entry_names(after);
                let old_names = entry_names(before);
                assert(after =~= before.insert(at as int, item));
                assert forall|a: int, b: int| 0 <= a < b < names.len() implies lex_less(
                    names[a],
                    names[b],
                ) by {
                    if b < at {
                        assert(names[a] == old_names[a] && names[b] == old_names[b]);
                    } else if b == at {
                        assert(names[a] == old_names[a]);
                    } else if a == at {
                        assert(names[b] == old_names[b - 1]);
                    } else if a < at {
                        assert(names[a] == old_names[a] && names[b] == old_names[b - 1]);
                    } else {
                        assert(names[a] == old_names[a - 1] && names[b] == old_names[b - 1]);
                    }
                }
                assert forall|i: int| rest@.len() <= i < orig.len() implies after.contains(
                    #[trigger] orig[i],
                ) by {
                    if i == k {
                        assert(after[at as int] == orig[i]);
                    } else {
                        assert(before.contains(orig[i]));
                        let p = choose|p: int| 0 <= p < before.len() && before[p] == orig[i];
                        if p < at {
                            assert(after[p] == orig[i]);
                        } else {
                            assert(after[p + 1] == orig[i]);
                        }
                    }
                }
                assert forall|p: int| 0 <= p < after.len() implies exists|i: int|
                    rest@.len() <= i < orig.len() && orig[i] == #[trigger] after[p] by {
                    if p == at {
                        assert(orig[k] == after[p]);
                    } else {
                        let q = if p < at {
                            p
                        } else {
                            p - 1
                        };
                        assert(after[p] == before[q]);
                        let i = choose|i: int|
                            rest@.len() + 1 <= i < orig.len() && orig[i] == before[q];
                        assert(rest@.len() <= i < orig.len() && orig[i] == after[p]);
                    }
                }
            }
        }
        proof {
            let names = entry_names(sorted@);
            assert(names.no_duplicates()) by {
                assert forall|a: int, b: int| 0 <= a < names.len() && 0 <= b < names.len() && a
                    != b implies names[a] != names[b] by {
                    lemma_lex_irreflexive(names[a]);
                    if a < b {
                        assert(lex_less(names[a], names[b]));
                    } else {
                        assert(lex_less(names[b], names[a]));
                    }
                }
            }
        }
        let out = NameMap { entries: sorted };
        proof {
            assert(out@ =~= self@) by {
                assert forall|name: Seq<char>| out@.contains_key(name) <==> self@.contains_key(
                    name,
                ) by {
                    if out.names().contains(name) {
                        let p = choose|p: int|
                            0 <= p < out.names().len() && out.names()[p] == name;
                        let i = choose|i: int| 0 <= i < orig.len() && orig[i] == sorted@[p];
                        assert(self.names()[i] == name);
                    }
                    if self.names().contains(name) {
                        let i = choose|i: int|
                            0 <= i < self.names().len() && self.names()[i] == name;
                        assert(sorted@.contains(orig[i]));
                        let p = choose|p: int| 0 <= p < sorted@.len() && sorted@[p] == orig[i];
                        assert(out.names()[p] == name);
                    }
                }
                assert forall|name: Seq<char>| out@.contains_key(name) implies out@[name]
                    == self@[name] by {
                    let p = out.names().index_of(name);
                    assert(out.names()[p] == name);
                    let i = choose|i: int| 0 <= i < orig.len() && orig[i] == sorted@[p];
                    assert(self.names()[i] == name);
                    self.lemma_entry(i);
                    out.lemma_entry(p);
                }
            }
        }
        out
    }

    /// The entries of the map, in their order.
    pub fn into_entries(self) -> (entries: Vec<(String, V)>)
        ensures
            entry_names(entries@) == self.names(),
            entry_values(entries@) == self.values(),
            self.names().no_duplicates(),
            self.names().len() == self.values().len(),
    {
        proof {
            use_type_invariant(&self);
        }
        self.entries
    }
}

} // verus!
