//! A map from the names of targets to values, which lists its entries in
//! the dictionary order of the names.

use crate::labels::{is_listing, lemma_lex_asymmetric, sorted_labels, strictly_sorted};
use crate::labels::lemma_listing_is_sorted_labels;
use crate::text::{chars_less, chars_of, lemma_lex_transitive, lex_less, same_chars, string_of};
use vstd::prelude::*;
use vstd::seq_lib::seq_to_set_is_finite;

verus! {

/// A map keyed by target names. Its entries are kept in the dictionary
/// order of their names.
#[derive(Debug)]
pub struct TargetMap<V> {
    entries: Vec<(Vec<char>, V)>,
}

impl<V> View for TargetMap<V> {
    type V = Map<Seq<char>, V>;

    closed spec fn view(&self) -> Map<Seq<char>, V> {
        Map::new(
            |k: Seq<char>| self.names().contains(k),
            |k: Seq<char>| self.entries@[self.names().index_of(k)].1,
        )
    }
}

impl<V> TargetMap<V> {
    #[verifier::type_invariant]
    spec fn ordered(self) -> bool {
        strictly_sorted(self.names())
    }

    /// The names of the entries, in the order in which the map lists them.
    pub closed spec fn names(&self) -> Seq<Seq<char>> {
        self.entries@.map_values(|e: (Vec<char>, V)| e.0@)
    }

    /// The empty map.
    pub fn new() -> (m: TargetMap<V>)
        ensures
            m@ == Map::<Seq<char>, V>::empty(),
            m.names() == Seq::<Seq<char>>::empty(),
    {
        let m = TargetMap { entries: Vec::new() };
        assert(m.names() =~= Seq::<Seq<char>>::empty());
        assert(m@ =~= Map::<Seq<char>, V>::empty());
        m
    }

    /// The number of entries. The names are listed in dictionary order,
    /// each once, and every name has its value.
    pub fn len(&self) -> (n: usize)
        ensures
            n == self.names().len(),
            self.names() == sorted_labels(self@.dom()),
            self@.dom().finite(),
            is_listing(self.names(), self@.dom()),
            forall|i: int| 0 <= i < n ==> self@.contains_key(#[trigger] self.names()[i]),
    {
        proof {
            use_type_invariant(self);
            assert(is_listing(self.names(), self@.dom()));
            lemma_listing_is_sorted_labels(self.names(), self@.dom());
            seq_to_set_is_finite(self.names());
            assert(self.names().to_set() =~= self@.dom());
            assert forall|i: int| 0 <= i < self.names().len() implies self@.contains_key(
                #[trigger] self.names()[i],
            ) by {
                assert(self.names().contains(self.names()[i]));
            }
        }
        self.entries.len()
    }

    /// The name of the entry at `i`.
    pub fn name_at(&self, i: usize) -> (name: String)
        requires
            i < self.names().len(),
        ensures
            name@ == self.names()[i as int],
    {
        string_of(self.entries[i].0.as_slice())
    }

    /// The value of the entry at `i`.
    pub fn value_at(&self, i: usize) -> (value: &V)
        requires
            i < self.names().len(),
        ensures
            self@.contains_key(self.names()[i as int]),
            *value == self@[self.names()[i as int]],
    {
        proof {
            use_type_invariant(self);
            self.lemma_index(i as int);
        }
        &self.entries[i].1
    }

    /// In a map with ordered names, a name is found where it stands.
    proof fn lemma_index(self, i: int)
        requires
            strictly_sorted(self.names()),
            0 <= i < self.names().len(),
        ensures
            self.names().contains(self.names()[i]),
            self.names().index_of(self.names()[i]) == i,
    {
        let names = self.names();
        assert(names.contains(names[i]));
        let j = names.index_of(names[i]);
        assert(0 <= j < names.len() && names[j] == names[i]);
        lemma_lex_asymmetric(names[i], names[j]);
        if j < i {
            assert(lex_less(names[j], names[i]));
        } else if i < j {
            assert(lex_less(names[i], names[j]));
        }
    }

    /// Index of the first entry whose name does not come before `name`.
    fn rank(&self, name: &[char]) -> (i: usize)
        ensures
            i <= self.names().len(),
            forall|k: int| 0 <= k < i ==> lex_less(#[trigger] self.names()[k], name@),
            i < self.names().len() ==> !lex_less(self.names()[i as int], name@),
    {
        let mut i: usize = 0;
        while i < self.entries.len() && chars_less(self.entries[i].0.as_slice(), name)
            invariant
                i <= self.entries.len(),
                forall|k: int| 0 <= k < i ==> lex_less(#[trigger] self.names()[k], name@),
            decreases self.entries.len() - i,
        {
            i += 1;
        }
        i
    }

    /// Where `name` stands, if it has an entry.
    fn locate(&self, name: &[char]) -> (r: Option<usize>)
        ensures
            r is Some <==> self@.contains_key(name@),
            r matches Some(i) ==> i < self.names().len() && self.names()[i as int] == name@,
    {
        let i = self.rank(name);
        proof {
            use_type_invariant(self);
            let l = self.names();
            if !(i < l.len() && l[i as int] == name@) {
                assert forall|k: int| 0 <= k < l.len() implies l[k] != name@ by {
                    lemma_lex_asymmetric(l[k], name@);
                    if k > i {
                        lemma_lex_asymmetric(l[i as int], name@);
                        assert(lex_less(l[i as int], l[k]));
                    }
                }
            } else {
                assert(l.contains(name@));
            }
        }
        if i < self.entries.len() && same_chars(self.entries[i].0.as_slice(), name) {
            Some(i)
        } else {
            None
        }
    }

    /// The value under `name`, if there is one.
    pub fn get(&self, name: &str) -> (r: Option<&V>)
        ensures
            r is Some <==> self@.contains_key(name@),
            r matches Some(value) ==> *value == self@[name@],
    {
        let chars = chars_of(name);
        match self.locate(chars.as_slice()) {
            Some(i) => Some(self.value_at(i)),
            None => None,
        }
    }

    /// Puts `value` under `name`, in place of what was there before.
    pub fn insert(&mut self, name: &str, value: V)
        ensures
            final(self)@ == old(self)@.insert(name@, value),
    {
        let key = chars_of(name);
        let i = self.rank(key.as_slice());
        proof {
            use_type_invariant(&*self);
        }
        let ghost before = *self;
        let present = i < self.entries.len() && same_chars(
            self.entries[i].0.as_slice(),
            key.as_slice(),
        );
        let mut members: Vec<(Vec<char>, V)> = Vec::new();
        std::mem::swap(&mut self.entries, &mut members);
        if present {
            members.set(i, (key, value));
        } else {
            members.insert(i, (key, value));
        }
        let ghost after = TargetMap { entries: members };
        proof {
            let old_names = before.names();
            let new_names = after.names();
            if present {
                assert(new_names =~= old_names);
            } else {
                assert(new_names =~= old_names.insert(i as int, name@));
                assert forall|a: int, b: int| 0 <= a < b < new_names.len() implies lex_less(
                    #[trigger] new_names[a],
                    #[trigger] new_names[b],
                ) by {
                    if i < old_names.len() {
                        lemma_lex_asymmetric(old_names[i as int], name@);
                    }
                    if a == i {
                        if b - 1 > i {
                            assert(lex_less(old_names[i as int], old_names[b - 1]));
                            lemma_lex_transitive(name@, old_names[i as int], old_names[b - 1], 0);
                        }
                    } else if b == i {
                        assert(new_names[a] == old_names[a]);
                    } else {
                        let a0 = if a < i {
                            a
                        } else {
                            a - 1
                        };
                        let b0 = if b < i {
                            b
                        } else {
                            b - 1
                        };
                        assert(new_names[a] == old_names[a0]);
                        assert(new_names[b] == old_names[b0]);
                        assert(lex_less(old_names[a0], old_names[b0]));
                    }
                }
            }
            assert(strictly_sorted(new_names));
            assert(new_names[i as int] == name@);
            assert(after@ =~= before@.insert(name@, value)) by {
                assert forall|k: Seq<char>| after@.contains_key(k) <==> (before@.contains_key(k)
                    || k == name@) by {
                    if new_names.contains(k) {
                        let j = choose|j: int| 0 <= j < new_names.len() && new_names[j] == k;
                        if k != name@ {
                            if present {
                                assert(old_names[j] == k);
                            } else if j < i {
                                assert(old_names[j] == k);
                            } else {
                                assert(old_names[j - 1] == k);
                            }
                        }
                    }
                    if old_names.contains(k) {
                        let j = choose|j: int| 0 <= j < old_names.len() && old_names[j] == k;
                        if present {
                            assert(new_names[j] == k);
                        } else if j < i {
                            assert(new_names[j] == k);
                        } else {
                            assert(new_names[j + 1] == k);
                        }
                    }
                }
                assert forall|k: Seq<char>| after@.contains_key(k) implies after@[k]
                    == before@.insert(name@, value)[k] by {
                    let j = choose|j: int| 0 <= j < new_names.len() && new_names[j] == k;
                    after.lemma_index(j);
                    if k != name@ {
                        let j0 = if present || j < i {
                            j
                        } else {
                            j - 1
                        };
                        assert(old_names[j0] == k);
                        before.lemma_index(j0);
                    } else {
                        after.lemma_index(i as int);
                    }
                }
            }
        }
        self.entries = members;
    }
}

} // verus!
