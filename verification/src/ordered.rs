//! A map with text keys that remembers the order in which its keys came in.

use crate::text::same_text;
use vstd::prelude::*;

verus! {

/// A map from text to `V` whose keys stay in insertion order.
#[derive(Debug)]
pub struct OrderedMap<V> {
    entries: Vec<(String, V)>,
}

/// The position of `key` among `keys`, given that it occurs there.
pub open spec fn position(keys: Seq<Seq<char>>, key: Seq<char>) -> int {
    choose|i: int| 0 <= i < keys.len() && keys[i] == key
}

/// `keys` without `key`, the others in the same order.
pub open spec fn without(keys: Seq<Seq<char>>, key: Seq<char>) -> Seq<Seq<char>> {
    if keys.contains(key) {
        keys.remove(position(keys, key))
    } else {
        keys
    }
}

/// `keys` with `key` added at the end unless it is there already.
pub open spec fn with_key(keys: Seq<Seq<char>>, key: Seq<char>) -> Seq<Seq<char>> {
    if keys.contains(key) {
        keys
    } else {
        keys.push(key)
    }
}

impl<V> View for OrderedMap<V> {
    type V = Map<Seq<char>, V>;

    closed spec fn view(&self) -> Map<Seq<char>, V> {
        Map::new(
            |k: Seq<char>| self.keys().contains(k),
            |k: Seq<char>| self.entries@[position(self.keys(), k)].1,
        )
    }
}

impl<V> OrderedMap<V> {
    /// The keys in insertion order.
    pub closed spec fn keys(&self) -> Seq<Seq<char>> {
        Seq::new(self.entries@.len(), |i: int| self.entries@[i].0@)
    }

    /// No key occurs twice.
    pub open spec fn wf(&self) -> bool {
        self.keys().no_duplicates()
    }

    /// The keys listed are the keys mapped.
    pub proof fn lemma_domain(&self)
        ensures
            forall|k: Seq<char>| #[trigger] self@.contains_key(k) <==> self.keys().contains(k),
            forall|i: int| 0 <= i < self.keys().len() ==> self@.contains_key(#[trigger] self.keys()[i]),
    {
        assert forall|i: int| 0 <= i < self.keys().len() implies self@.contains_key(
            #[trigger] self.keys()[i],
        ) by {
            assert(self.keys().contains(self.keys()[i]));
        }
    }

    /// The entry at position `i` holds the value of the `i`-th key.
    proof fn lemma_entry(&self, i: int)
        requires
            self.wf(),
            0 <= i < self.entries@.len(),
        ensures
            self@.contains_key(self.entries@[i].0@),
            self@[self.entries@[i].0@] == self.entries@[i].1,
            position(self.keys(), self.entries@[i].0@) == i,
    {
        let k = self.entries@[i].0@;
        assert(self.keys()[i] == k);
        assert(self.keys().contains(k));
    }

    /// An empty map.
    pub fn new() -> (m: Self)
        ensures
            m.wf(),
            m.keys() == Seq::<Seq<char>>::empty(),
            m@ == Map::<Seq<char>, V>::empty(),
    {
        let m = OrderedMap { entries: Vec::new() };
        assert(m@ =~= Map::<Seq<char>, V>::empty());
        m
    }

    /// The number of keys.
    pub fn len(&self) -> (n: usize)
        ensures
            n == self.keys().len(),
    {
        self.entries.len()
    }

    /// The position of a key, if it is there.
    pub fn find(&self, key: &str) -> (r: Option<usize>)
        requires
            self.wf(),
        ensures
            match r {
                Some(i) => i < self.keys().len() && self.keys()[i as int] == key@
                    && self@.contains_key(key@),
                None => !self.keys().contains(key@) && !self@.contains_key(key@),
            },
    {
        let mut i: usize = 0;
        while i < self.entries.len()
            invariant
                i <= self.entries@.len(),
                forall|j: int| 0 <= j < i ==> self.entries@[j].0@ != key@,
            decreases self.entries@.len() - i,
        {
            if same_text(self.entries[i].0.as_str(), key) {
                assert(self.keys()[i as int] == key@);
                return Some(i);
            }
            i = i + 1;
        }
        assert forall|j: int| 0 <= j < self.keys().len() implies self.keys()[j] != key@ by {
            assert(self.keys()[j] == self.entries@[j].0@);
        }
        None
    }

    /// Whether the map has the key.
    pub fn contains_key(&self, key: &str) -> (r: bool)
        requires
            self.wf(),
        ensures
            r == self@.contains_key(key@),
    {
        match self.find(key) {
            Some(i) => {
                proof {
                    self.lemma_entry(i as int);
                }
                true
            },
            None => false,
        }
    }

    /// The value of a key.
    pub fn get(&self, key: &str) -> (r: Option<&V>)
        requires
            self.wf(),
        ensures
            match r {
                Some(v) => self@.contains_key(key@) && *v == self@[key@],
                None => !self@.contains_key(key@),
            },
    {
        match self.find(key) {
            Some(i) => {
                proof {
                    self.lemma_entry(i as int);
                }
                Some(&self.entries[i].1)
            },
            None => None,
        }
    }

    /// The `i`-th key in insertion order.
    pub fn key_at(&self, i: usize) -> (k: &String)
        requires
            i < self.keys().len(),
        ensures
            k@ == self.keys()[i as int],
    {
        &self.entries[i].0
    }

    /// The value of the `i`-th key in insertion order.
    pub fn value_at(&self, i: usize) -> (v: &V)
        requires
            self.wf(),
            i < self.keys().len(),
        ensures
            self@.contains_key(self.keys()[i as int]),
            *v == self@[self.keys()[i as int]],
    {
        proof {
            self.lemma_entry(i as int);
        }
        &self.entries[i].1
    }

    /// Sets the value of a key.  A new key goes to the end of the order.
    pub fn insert(&mut self, key: String, value: V)
        requires
            old(self).wf(),
        ensures
            final(self).wf(),
            final(self)@ == old(self)@.insert(key@, value),
            final(self).keys() == with_key(old(self).keys(), key@),
    {
        match self.find(key.as_str()) {
            Some(i) => {
                let ghost before = *self;
                self.entries.set(i, (key, value));
                proof {
                    before.lemma_entry(i as int);
                    assert(self.keys() =~= before.keys());
                    assert(self@ =~= before@.insert(key@, value));
                }
            },
            None => {
                let ghost before = *self;
                self.entries.push((key, value));
                proof {
                    assert(self.keys() =~= before.keys().push(key@));
                    assert(self.wf());
                    assert forall|k: Seq<char>| self@.contains_key(k) == before@.insert(
                        key@,
                        value,
                    ).contains_key(k) by {
                        if before.keys().contains(k) {
                            let j = position(before.keys(), k);
                            assert(self.keys()[j] == k);
                        }
                        assert(self.keys()[before.keys().len() as int] == key@);
                        if self.keys().contains(k) && k != key@ {
                            let j = position(self.keys(), k);
                            assert(before.keys()[j] == k);
                        }
                    }
                    assert forall|k: Seq<char>| self@.contains_key(k) implies self@[k]
                        == before@.insert(key@, value)[k] by {
                        let j = position(self.keys(), k);
                        self.lemma_entry(j);
                        if k != key@ {
                            before.lemma_entry(j);
                        } else {
                            assert(self.keys()[before.keys().len() as int] == key@);
                        }
                    }
                    assert(self@ =~= before@.insert(key@, value));
                }
            },
        }
    }

    /// Exchanges the value of the `i`-th key with `other`.
    pub fn swap_value(&mut self, i: usize, other: &mut V)
        requires
            old(self).wf(),
            i < old(self).keys().len(),
        ensures
            final(self).wf(),
            final(self).keys() == old(self).keys(),
            final(self)@ == old(self)@.insert(old(self).keys()[i as int], *old(other)),
            old(self)@.contains_key(old(self).keys()[i as int]),
            *final(other) == old(self)@[old(self).keys()[i as int]],
    {
        let ghost before = *self;
        std::mem::swap(&mut self.entries[i].1, other);
        proof {
            before.lemma_entry(i as int);
            assert(self.keys() =~= before.keys());
            assert(self@ =~= before@.insert(before.keys()[i as int], self.entries@[i as int].1));
        }
    }

    /// Takes the entry at position `i` out, keeping the others in order.
    pub fn remove_at(&mut self, i: usize) -> (entry: (String, V))
        requires
            old(self).wf(),
            i < old(self).keys().len(),
        ensures
            final(self).wf(),
            entry.0@ == old(self).keys()[i as int],
            old(self)@.contains_key(entry.0@),
            entry.1 == old(self)@[entry.0@],
            final(self)@ == old(self)@.remove(entry.0@),
            final(self).keys() == old(self).keys().remove(i as int),
    {
        let ghost before = *self;
        let entry = self.entries.remove(i);
        proof {
            let key = entry.0@;
            before.lemma_entry(i as int);
            assert(self.keys() =~= before.keys().remove(i as int));
            assert(self.wf()) by {
                assert forall|a: int, b: int|
                    0 <= a < b < self.keys().len() implies self.keys()[a] != self.keys()[b] by {
                    let x = if a < i { a } else { a + 1 };
                    let y = if b < i { b } else { b + 1 };
                    assert(self.keys()[a] == before.keys()[x]);
                    assert(self.keys()[b] == before.keys()[y]);
                }
            }
            assert forall|k: Seq<char>| self@.contains_key(k) == before@.remove(key).contains_key(
                k,
            ) by {
                if self.keys().contains(k) {
                    let j = position(self.keys(), k);
                    let x = if j < i { j } else { j + 1 };
                    assert(before.keys()[x] == k);
                    assert(before.keys()[i as int] == key);
                }
                if before.keys().contains(k) && k != key {
                    let j = position(before.keys(), k);
                    let x = if j < i { j } else { j - 1 };
                    assert(self.keys()[x] == k);
                }
            }
            assert forall|k: Seq<char>| self@.contains_key(k) implies self@[k] == before@.remove(
                key,
            )[k] by {
                let j = position(self.keys(), k);
                self.lemma_entry(j);
                let x = if j < i { j } else { j + 1 };
                before.lemma_entry(x);
            }
            assert(self@ =~= before@.remove(key));
        }
        entry
    }

    /// Removes a key.  Returns whether it was there.
    pub fn remove(&mut self, key: &str) -> (existed: bool)
        requires
            old(self).wf(),
        ensures
            final(self).wf(),
            existed == old(self)@.contains_key(key@),
            final(self)@ == old(self)@.remove(key@),
            final(self).keys() == without(old(self).keys(), key@),
    {
        match self.find(key) {
            Some(i) => {
                proof {
                    self.lemma_entry(i as int);
                }
                let _entry = self.remove_at(i);
                true
            },
            None => {
                assert(self@.remove(key@) =~= self@);
                false
            },
        }
    }

    /// Removes every key.
    pub fn clear(&mut self)
        ensures
            final(self).wf(),
            final(self).keys() == Seq::<Seq<char>>::empty(),
            final(self)@ == Map::<Seq<char>, V>::empty(),
    {
        self.entries.clear();
        assert(self@ =~= Map::<Seq<char>, V>::empty());
    }
}

/// A key that is there stays where it is, and a new one goes to the end.
pub proof fn law_new_key_goes_to_the_end(keys: Seq<Seq<char>>, key: Seq<char>)
    ensures
        keys.is_prefix_of(with_key(keys, key)),
        with_key(keys, key).contains(key),
        keys.contains(key) ==> with_key(keys, key).len() == keys.len(),
        !keys.contains(key) ==> with_key(keys, key).len() == keys.len() + 1 && with_key(
            keys,
            key,
        ).last() == key,
{
    if !keys.contains(key) {
        assert(keys.push(key).last() == key);
        assert(keys.push(key)[keys.len() as int] == key);
        assert(keys.push(key).subrange(0, keys.len() as int) =~= keys);
    } else {
        assert(keys.subrange(0, keys.len() as int) =~= keys);
    }
}

/// Taking a key out leaves the others, in the same order.
pub proof fn law_other_keys_stay_in_order(
    before: Seq<Seq<char>>,
    key: Seq<char>,
    after: Seq<Seq<char>>,
)
    requires
        !before.contains(key),
    ensures
        !after.contains(key) ==> without(before.push(key) + after, key) == before + after,
        without(before, key) == before,
{
    let keys = before.push(key) + after;
    if !after.contains(key) {
        assert(keys[before.len() as int] == key);
        assert(keys.contains(key));
        let p = position(keys, key);
        assert(p == before.len()) by {
            if p < before.len() {
                assert(before[p] == key);
            } else if p > before.len() {
                assert(after[p - before.len() - 1] == key);
            }
        }
        assert(without(keys, key) =~= before + after);
    }
}

} // verus!
