//! A map from interval keys to values, kept in the order of its keys.

use vstd::prelude::*;
use crate::key_order::{
    ascending, key_before, lemma_key_before_irreflexive, lemma_key_before_transitive, standing,
    Standing,
};

verus! {

/// A map from interval keys to values. No key occurs twice, and the entries
/// stand in the order of their keys.
pub struct IntervalMap<V> {
    keys: Vec<String>,
    values: Vec<V>,
}

impl<V> IntervalMap<V> {
    #[verifier::type_invariant]
    spec fn well_formed(self) -> bool {
        &&& self.keys.len() == self.values.len()
        &&& ascending(self.keys@.map_values(|k: String| k@))
    }

    /// The keys of the map, in order.
    pub closed spec fn keys(self) -> Seq<Seq<char>> {
        self.keys@.map_values(|k: String| k@)
    }

    /// The values of the map, each at the position of its key.
    pub closed spec fn values(self) -> Seq<V> {
        self.values@
    }

    /// Whether the map holds `key`.
    pub open spec fn has(self, key: Seq<char>) -> bool {
        self.keys().contains(key)
    }

    /// A map without entries.
    pub fn new() -> (map: Self)
        ensures
            map.keys() == Seq::<Seq<char>>::empty(),
            map.values() == Seq::<V>::empty(),
    {
        let map = IntervalMap { keys: Vec::new(), values: Vec::new() };
        assert(map.keys@.map_values(|k: String| k@) == Seq::<Seq<char>>::empty());
        map
    }

    /// The number of entries. Every map has as many values as keys, and its
    /// keys ascend.
    pub fn len(&self) -> (n: usize)
        ensures
            n == self.keys().len(),
            n == self.values().len(),
            ascending(self.keys()),
    {
        proof {
            use_type_invariant(self);
        }
        self.keys.len()
    }

    /// Whether the map has no entries.
    pub fn is_empty(&self) -> (empty: bool)
        ensures
            empty == (self.keys().len() == 0),
    {
        self.keys.len() == 0
    }

    /// The key of the entry at position `i`.
    pub fn key_at(&self, i: usize) -> (key: &String)
        requires
            i < self.keys().len(),
        ensures
            key@ == self.keys()[i as int],
    {
        &self.keys[i]
    }

    /// The value of the entry at position `i`.
    pub fn value_at(&self, i: usize) -> (value: &V)
        requires
            i < self.keys().len(),
        ensures
            *value == self.values()[i as int],
    {
        proof {
            use_type_invariant(self);
        }
        &self.values[i]
    }

    /// The position at which `key` stands or would have to stand: the first
    /// whose key does not come before it. The flag tells whether the key
    /// stands there.
    pub fn find(&self, key: &str) -> (result: (usize, bool))
        ensures
            result.0 <= self.keys().len(),
            forall|j: int| 0 <= j < result.0 ==> key_before(self.keys()[j], key@),
            result.1 ==> result.0 < self.keys().len() && self.keys()[result.0 as int] == key@,
            !result.1 ==> forall|j: int|
                result.0 <= j < self.keys().len() ==> key_before(key@, self.keys()[j]),
            result.1 == self.has(key@),
    {
        proof {
            use_type_invariant(self);
        }
        let ghost ks = self.keys();
        let n = self.keys.len();
        let mut i: usize = 0;
        while i < n
            invariant
                0 <= i <= n,
                n == self.keys.len(),
                ks == self.keys(),
                ascending(ks),
                forall|j: int| 0 <= j < i ==> key_before(ks[j], key@),
            decreases n - i,
        {
            match standing(self.keys[i].as_str(), key) {
                Standing::Before => {},
                Standing::Same => {
                    assert(ks[i as int] == key@);
                    return (i, true);
                },
                Standing::After => {
                    proof {
                        assert(key_before(key@, ks[i as int]));
                        assert forall|j: int| i <= j < ks.len() implies key_before(
                            key@,
                            ks[j],
                        ) by {
                            if j > i {
                                lemma_key_before_transitive(key@, ks[i as int], ks[j]);
                            }
                        }
                        assert(!ks.contains(key@)) by {
                            if ks.contains(key@) {
                                let j = choose|j: int| 0 <= j < ks.len() && ks[j] == key@;
                                lemma_key_before_irreflexive(key@);
                            }
                        }
                    }
                    return (i, false);
                },
            }
            i = i + 1;
        }
        proof {
            assert(!ks.contains(key@)) by {
                if ks.contains(key@) {
                    let j = choose|j: int| 0 <= j < ks.len() && ks[j] == key@;
                    lemma_key_before_irreflexive(key@);
                }
            }
        }
        (n, false)
    }

    /// The value that stands under `key`, if the map holds the key.
    pub fn get(&self, key: &String) -> (value: Option<&V>)
        ensures
            value is Some <==> self.has(key@),
            value is Some ==> exists|i: int|
                0 <= i < self.keys().len() && self.keys()[i] == key@ && *value->0
                    == self.values()[i],
    {
        proof {
            use_type_invariant(self);
        }
        let (i, found) = self.find(key.as_str());
        if found {
            Some(&self.values[i])
        } else {
            None
        }
    }

    /// The map with a new entry at position `i`, where its key belongs.
    pub fn inserted_at(self, i: usize, key: String, value: V) -> (map: Self)
        requires
            i <= self.keys().len(),
            forall|j: int| 0 <= j < i ==> key_before(self.keys()[j], key@),
            forall|j: int| i <= j < self.keys().len() ==> key_before(key@, self.keys()[j]),
        ensures
            map.keys() == self.keys().insert(i as int, key@),
            map.values() == self.values().insert(i as int, value),
            ascending(map.keys()),
    {
        proof {
            use_type_invariant(&self);
        }
        let ghost old_keys = self.keys();
        let ghost k = key@;
        let IntervalMap { mut keys, mut values } = self;
        keys.insert(i, key);
        values.insert(i, value);
        proof {
            let new_keys = keys@.map_values(|k: String| k@);
            assert(new_keys =~= old_keys.insert(i as int, k));
            assert forall|a: int, b: int| 0 <= a < b < new_keys.len() implies key_before(
                new_keys[a],
                new_keys[b],
            ) by {
                if a < i && b > i {
                    assert(new_keys[a] == old_keys[a]);
                    assert(new_keys[b] == old_keys[b - 1]);
                } else if a < i && b < i {
                    assert(new_keys[a] == old_keys[a]);
                    assert(new_keys[b] == old_keys[b]);
                } else if a > i {
                    assert(new_keys[a] == old_keys[a - 1]);
                    assert(new_keys[b] == old_keys[b - 1]);
                } else if a == i {
                    assert(new_keys[b] == old_keys[b - 1]);
                } else {
                    assert(new_keys[a] == old_keys[a]);
                }
            }
        }
        IntervalMap { keys, values }
    }
}

impl<T> IntervalMap<Vec<T>> {
    /// The map with `item` added at the end of the value at position `i`.
    pub fn pushed(self, i: usize, item: T) -> (map: Self)
        requires
            i < self.keys().len(),
        ensures
            map.keys() == self.keys(),
            ascending(map.keys()),
            map.values().len() == self.values().len(),
            map.values()[i as int]@ == self.values()[i as int]@.push(item),
            forall|j: int|
                0 <= j < self.values().len() && j != i ==> map.values()[j] == self.values()[j],
    {
        proof {
            use_type_invariant(&self);
        }
        let IntervalMap { keys, mut values } = self;
        values[i].push(item);
        IntervalMap { keys, values }
    }
}

} // verus!
