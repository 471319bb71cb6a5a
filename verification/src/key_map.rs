//! A small map with keys that are compared one by one.

use vstd::prelude::*;

use crate::entries;
use crate::protocol;
use crate::protocol::Digest;

verus! {

/// What a [`KeyMap`] can be keyed by. A key counts by its view.
pub trait Key: View + Sized {
    /// Whether two keys are the same.
    fn same(&self, other: &Self) -> (r: bool)
        ensures
            r == (self@ == other@),
    ;
}

impl Key for Digest {
    fn same(&self, other: &Self) -> (r: bool) {
        protocol::digests_equal(self, other)
    }
}

/// A map from keys to values.
pub struct KeyMap<K: Key, T> {
    items: Vec<(K, T)>,
}

/// A map from digests to values.
pub type DigestMap<T> = KeyMap<Digest, T>;

impl<K: Key, T> View for KeyMap<K, T> {
    type V = Map<K::V, T>;

    closed spec fn view(&self) -> Map<K::V, T> {
        entries::as_map(self.items@)
    }
}

impl<K: Key, T> KeyMap<K, T> {
    /// No key occurs twice.
    #[verifier::type_invariant]
    spec fn inv(self) -> bool {
        entries::keys_differ(self.items@)
    }

    /// Makes an empty map.
    pub fn new() -> (r: Self)
        ensures
            r@ == Map::<K::V, T>::empty(),
    {
        let r = KeyMap { items: Vec::new() };
        assert(r@ =~= Map::<K::V, T>::empty());
        r
    }

    /// Finds the entry of a key.
    fn find(&self, key: &K) -> (r: Option<usize>)
        ensures
            match r {
                Some(i) => i < self.items@.len() && i == entries::position(self.items@, key@),
                None => entries::position(self.items@, key@) == self.items@.len(),
            },
    {
        let mut i: usize = 0;
        while i < self.items.len()
            invariant
                i <= self.items@.len(),
                forall|j: int| 0 <= j < i ==> (#[trigger] self.items@[j]).0@ != key@,
            decreases self.items@.len() - i,
        {
            if self.items[i].0.same(key) {
                proof {
                    entries::lemma_position(self.items@, key@, i as int);
                }
                return Some(i);
            }
            i = i + 1;
        }
        proof {
            entries::lemma_position(self.items@, key@, i as int);
        }
        None
    }

    /// The value of a key.
    pub fn get(&self, key: &K) -> (r: Option<&T>)
        ensures
            match r {
                Some(v) => self@.dom().contains(key@) && *v == self@[key@],
                None => !self@.dom().contains(key@),
            },
    {
        match self.find(key) {
            Some(i) => Some(&self.items[i].1),
            None => None,
        }
    }

    /// Gives a key a value.
    pub fn insert(&mut self, key: K, value: T)
        ensures
            final(self)@ == old(self)@.insert(key@, value),
    {
        proof {
            use_type_invariant(&*self);
        }
        let ghost before = self.items@;
        let found = self.find(&key);
        let mut items: Vec<(K, T)> = Vec::new();
        std::mem::swap(&mut items, &mut self.items);
        match found {
            Some(i) => {
                items[i].1 = value;
                proof {
                    entries::lemma_insert_at(before, key@, value);
                }
            },
            None => {
                proof {
                    entries::lemma_push(before, key, value);
                }
                items.push((key, value));
            },
        }
        self.items = items;
    }

    /// Takes a key out.
    pub fn remove(&mut self, key: &K) -> (r: bool)
        ensures
            r == old(self)@.dom().contains(key@),
            final(self)@ == old(self)@.remove(key@),
    {
        proof {
            use_type_invariant(&*self);
        }
        let ghost before = self.items@;
        let found = self.find(key).is_some();
        let mut kept: Vec<(K, T)> = Vec::new();
        let mut rest: Vec<(K, T)> = Vec::new();
        std::mem::swap(&mut rest, &mut self.items);
        for e in it: rest
            invariant
                it.seq() == before,
                kept@ == entries::without(before.take(it.index()), key@),
        {
            proof {
                let t = before.take(it.index() + 1);
                assert(t.drop_last() == before.take(it.index()));
                assert(t.last() == e);
            }
            if !e.0.same(key) {
                kept.push(e);
            }
        }
        assert(before.take(before.len() as int) == before);
        proof {
            entries::lemma_without(before, key@);
        }
        self.items = kept;
        found
    }
}

} // verus!
