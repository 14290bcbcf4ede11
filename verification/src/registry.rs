//! A map from strings to values that keeps its entries in the order in which
//! their keys first arrived.
//!
//! Keys are found by comparing strings character by character, so what the
//! map holds after each operation is proved here and rests on no assumption
//! about a hash function.

use crate::text::same_text;
use vstd::prelude::*;

verus! {

/// No string occurs twice in `keys`.
pub open spec fn distinct(keys: Seq<Seq<char>>) -> bool {
    forall|i: int, j: int| 0 <= i < j < keys.len() ==> keys[i] != keys[j]
}

/// The map that sends `keys[i]` to `values[i]`.
pub open spec fn entries_map<V>(keys: Seq<Seq<char>>, values: Seq<V>) -> Map<Seq<char>, V> {
    Map::new(|k: Seq<char>| keys.contains(k), |k: Seq<char>| values[keys.index_of(k)])
}

/// In a list of distinct keys, `index_of` finds each key at its own place.
pub proof fn lemma_index_of(keys: Seq<Seq<char>>, i: int)
    requires
        distinct(keys),
        0 <= i < keys.len(),
    ensures
        keys.contains(keys[i]),
        keys.index_of(keys[i]) == i,
{
    let j = keys.index_of(keys[i]);
    assert(0 <= j < keys.len() && keys[j] == keys[i]);
}

/// What `entries_map` holds, entry by entry.
pub proof fn lemma_entries_map<V>(keys: Seq<Seq<char>>, values: Seq<V>)
    requires
        distinct(keys),
        keys.len() == values.len(),
    ensures
        entries_map(keys, values).dom() =~= keys.to_set(),
        entries_map(keys, values).dom().finite(),
        entries_map(keys, values).len() == keys.len(),
        keys.no_duplicates(),
        forall|i: int|
            0 <= i < keys.len() ==> entries_map(keys, values).contains_key(#[trigger] keys[i])
                && entries_map(keys, values)[keys[i]] == values[i],
{
    assert forall|i: int| 0 <= i < keys.len() implies entries_map(keys, values).contains_key(
        #[trigger] keys[i],
    ) && entries_map(keys, values)[keys[i]] == values[i] by {
        lemma_index_of(keys, i);
    }
    assert(keys.no_duplicates());
    keys.unique_seq_to_set();
    vstd::seq_lib::seq_to_set_is_finite(keys);
}

/// Writing `value` at place `i` of the values is inserting it under the key
/// at place `i`.
pub proof fn lemma_update_is_insert<V>(keys: Seq<Seq<char>>, values: Seq<V>, i: int, value: V)
    requires
        distinct(keys),
        keys.len() == values.len(),
        0 <= i < keys.len(),
    ensures
        entries_map(keys, values.update(i, value)) == entries_map(keys, values).insert(
            keys[i],
            value,
        ),
{
    let after = values.update(i, value);
    lemma_entries_map(keys, values);
    lemma_entries_map(keys, after);
    assert forall|k: Seq<char>| keys.contains(k) implies #[trigger] entries_map(keys, after)[k]
        == entries_map(keys, values).insert(keys[i], value)[k] by {
        let j = keys.index_of(k);
        lemma_index_of(keys, j);
        lemma_index_of(keys, i);
    }
    assert(entries_map(keys, after) =~= entries_map(keys, values).insert(keys[i], value));
}

/// The characters of each string of `keys`.
pub open spec fn texts(keys: Seq<String>) -> Seq<Seq<char>> {
    keys.map_values(|k: String| k@)
}

/// A map from strings to values of type `V`.
///
/// Lookups compare whole strings. Entries stay in the order in which their
/// keys were first inserted; replacing the value under a key keeps its place.
#[derive(Debug)]
pub struct Registry<V> {
    keys: Vec<String>,
    values: Vec<V>,
}

impl<V> View for Registry<V> {
    type V = Map<Seq<char>, V>;

    open spec fn view(&self) -> Map<Seq<char>, V> {
        entries_map(self.keys(), self.values())
    }
}

impl<V> Registry<V> {
    /// The keys, in order of first insertion.
    pub closed spec fn keys(&self) -> Seq<Seq<char>> {
        texts(self.keys@)
    }

    /// The values, each at the place of its key.
    pub closed spec fn values(&self) -> Seq<V> {
        self.values@
    }

    /// Every key has one value and no key occurs twice.
    #[verifier::type_invariant]
    pub closed spec fn wf(&self) -> bool {
        &&& self.keys@.len() == self.values@.len()
        &&& distinct(self.keys())
    }

    /// What well-formedness means for the keys and values.
    pub proof fn lemma_wf(&self)
        requires
            self.wf(),
        ensures
            self.keys().len() == self.values().len(),
            distinct(self.keys()),
    {
    }

    /// An empty registry.
    pub fn new() -> (r: Self)
        ensures
            r@ == Map::<Seq<char>, V>::empty(),
            r.keys() == Seq::<Seq<char>>::empty(),
            r.values() == Seq::<V>::empty(),
    {
        let r = Registry { keys: Vec::new(), values: Vec::new() };
        assert(r.keys() =~= Seq::<Seq<char>>::empty());
        assert(r@ =~= Map::<Seq<char>, V>::empty());
        r
    }

    /// The number of entries.
    pub fn len(&self) -> (n: usize)
        ensures
            n == self.keys().len(),
            n == self.values().len(),
            n == self@.len(),
            self@.dom().finite(),
    {
        proof {
            use_type_invariant(self);
            lemma_entries_map(self.keys(), self.values());
        }
        self.keys.len()
    }

    /// Moves the keys and the values out and leaves the registry empty.
    fn take_parts(&mut self) -> (parts: (Vec<String>, Vec<V>))
        ensures
            parts.0 == old(self).keys,
            parts.1 == old(self).values,
            final(self).keys@.len() == 0,
            final(self).values@.len() == 0,
    {
        let mut taken = Registry { keys: Vec::new(), values: Vec::new() };
        assert(taken.keys() =~= Seq::<Seq<char>>::empty());
        core::mem::swap(self, &mut taken);
        (taken.keys, taken.values)
    }

    /// The place of `key` among the keys, if it is one of them.
    fn position(&self, key: &str) -> (r: Option<usize>)
        ensures
            match r {
                Some(i) => i < self.keys().len() && self.keys()[i as int] == key@,
                None => !self.keys().contains(key@),
            },
    {
        let mut i: usize = 0;
        while i < self.keys.len()
            invariant
                i <= self.keys@.len(),
                forall|j: int| 0 <= j < i ==> self.keys()[j] != key@,
            decreases self.keys@.len() - i,
        {
            if same_text(self.keys[i].as_str(), key) {
                return Some(i);
            }
            i = i + 1;
        }
        None
    }

    /// Tells whether `key` has an entry.
    pub fn contains_key(&self, key: &str) -> (r: bool)
        ensures
            r == self@.contains_key(key@),
    {
        self.position(key).is_some()
    }

    /// The value under `key`, if there is one.
    pub fn get(&self, key: &str) -> (r: Option<&V>)
        ensures
            match r {
                Some(v) => self@.contains_key(key@) && *v == self@[key@],
                None => !self@.contains_key(key@),
            },
    {
        proof {
            use_type_invariant(self);
            lemma_entries_map(self.keys(), self.values());
        }
        match self.position(key) {
            Some(i) => Some(&self.values[i]),
            None => None,
        }
    }

    /// The key at place `i`.
    pub fn key_at(&self, i: usize) -> (k: &String)
        requires
            i < self.keys().len(),
        ensures
            k@ == self.keys()[i as int],
            self@.contains_key(k@),
    {
        proof {
            use_type_invariant(self);
            lemma_entries_map(self.keys(), self.values());
            assert(self@.contains_key(self.keys()[i as int]));
        }
        &self.keys[i]
    }

    /// The value at place `i`, which is the value under the key at place `i`.
    pub fn value_at(&self, i: usize) -> (v: &V)
        requires
            i < self.keys().len(),
        ensures
            *v == self.values()[i as int],
            *v == self@[self.keys()[i as int]],
    {
        proof {
            use_type_invariant(self);
            lemma_entries_map(self.keys(), self.values());
        }
        &self.values[i]
    }

    /// Mutable access to the value under `key`, if there is one. Whatever the
    /// caller writes through the reference becomes the value under `key`; no
    /// other entry changes.
    pub fn get_mut(&mut self, key: &str) -> (r: Option<&mut V>)
        ensures
            final(self).keys() == old(self).keys(),
            match r {
                Some(v) => {
                    &&& old(self)@.contains_key(key@)
                    &&& *v == old(self)@[key@]
                    &&& final(self)@ == old(self)@.insert(key@, *final(v))
                },
                None => !old(self)@.contains_key(key@) && final(self)@ == old(self)@,
            },
    {
        proof {
            use_type_invariant(&*self);
            lemma_entries_map(self.keys(), self.values());
        }
        match self.position(key) {
            Some(i) => {
                let ghost keys = self.keys();
                let ghost before = self.values();
                let slot = &mut self.values[i];
                proof {
                    lemma_update_is_insert(keys, before, i as int, *final(slot));
                }
                Some(slot)
            },
            None => None,
        }
    }

    /// Puts `value` under `key` and hands back the value that was there.
    /// A new key goes to the end; a known key keeps its place.
    pub fn insert(&mut self, key: String, value: V) -> (r: Option<V>)
        ensures
            final(self)@ == old(self)@.insert(key@, value),
            r == if old(self)@.contains_key(key@) {
                Some(old(self)@[key@])
            } else {
                None::<V>
            },
            final(self).keys() == if old(self)@.contains_key(key@) {
                old(self).keys()
            } else {
                old(self).keys().push(key@)
            },
    {
        proof {
            use_type_invariant(&*self);
            lemma_entries_map(self.keys(), self.values());
        }
        let ghost keys = self.keys();
        let ghost before = self.values();
        match self.position(key.as_str()) {
            Some(i) => {
                let mut held = value;
                core::mem::swap(&mut self.values[i], &mut held);
                proof {
                    assert(self.values() =~= before.update(i as int, value));
                    lemma_update_is_insert(keys, before, i as int, value);
                }
                Some(held)
            },
            None => {
                let ghost text = key@;
                let (mut ks, mut vs) = self.take_parts();
                ks.push(key);
                vs.push(value);
                proof {
                    assert(texts(ks@) =~= keys.push(text));
                    assert(distinct(keys.push(text)));
                }
                *self = Registry { keys: ks, values: vs };
                proof {
                    let grown = keys.push(text);
                    let after = before.push(value);
                    assert(self.keys() =~= grown);
                    assert(self.values() =~= after);
                    lemma_entries_map(grown, after);
                    assert forall|k: Seq<char>| #[trigger] grown.contains(k) <==> (keys.contains(k)
                        || k == text) by {
                        if keys.contains(k) {
                            let j = keys.index_of(k);
                            assert(grown[j] == k);
                        }
                        if k == text {
                            assert(grown[keys.len() as int] == k);
                        }
                    }
                    assert forall|k: Seq<char>| keys.contains(k) implies #[trigger] entries_map(
                        grown,
                        after,
                    )[k] == entries_map(keys, before)[k] by {
                        let j = keys.index_of(k);
                        lemma_index_of(keys, j);
                        assert(grown[j] == k);
                        lemma_index_of(grown, j);
                    }
                    assert(entries_map(grown, after) =~= entries_map(keys, before).insert(
                        text,
                        value,
                    ));
                }
                None
            },
        }
    }

    /// Takes the entry under `key` out and hands back its value. The other
    /// entries keep their order.
    pub fn remove(&mut self, key: &str) -> (r: Option<V>)
        ensures
            final(self)@ == old(self)@.remove(key@),
            r == if old(self)@.contains_key(key@) {
                Some(old(self)@[key@])
            } else {
                None::<V>
            },
            final(self).keys() == if old(self)@.contains_key(key@) {
                old(self).keys().remove(old(self).keys().index_of(key@))
            } else {
                old(self).keys()
            },
    {
        proof {
            use_type_invariant(&*self);
            lemma_entries_map(self.keys(), self.values());
        }
        let ghost keys = self.keys();
        let ghost before = self.values();
        match self.position(key) {
            Some(i) => {
                let (mut ks, mut vs) = self.take_parts();
                ks.remove(i);
                let taken = vs.remove(i);
                proof {
                    assert(texts(ks@) =~= keys.remove(i as int));
                    assert(distinct(keys.remove(i as int)));
                }
                *self = Registry { keys: ks, values: vs };
                proof {
                    let at = i as int;
                    lemma_index_of(keys, at);
                    let fewer = keys.remove(at);
                    let after = before.remove(at);
                    assert(self.keys() =~= fewer);
                    assert(self.values() =~= after);
                    lemma_entries_map(fewer, after);
                    assert forall|k: Seq<char>| #[trigger] fewer.contains(k) <==> (keys.contains(k)
                        && k != key@) by {
                        if fewer.contains(k) {
                            let j = fewer.index_of(k);
                            if j < at {
                                assert(keys[j] == k);
                            } else {
                                assert(keys[j + 1] == k);
                            }
                        }
                        if keys.contains(k) && k != key@ {
                            let j = keys.index_of(k);
                            if j < at {
                                assert(fewer[j] == k);
                            } else {
                                assert(fewer[j - 1] == k);
                            }
                        }
                    }
                    assert forall|k: Seq<char>| fewer.contains(k) implies #[trigger] entries_map(
                        fewer,
                        after,
                    )[k] == entries_map(keys, before)[k] by {
                        let j = fewer.index_of(k);
                        lemma_index_of(fewer, j);
                        if j < at {
                            lemma_index_of(keys, j);
                        } else {
                            lemma_index_of(keys, j + 1);
                        }
                    }
                    assert(entries_map(fewer, after) =~= entries_map(keys, before).remove(key@));
                }
                Some(taken)
            },
            None => {
                assert(entries_map(keys, before).remove(key@) =~= entries_map(keys, before));
                None
            },
        }
    }
}

} // verus!
