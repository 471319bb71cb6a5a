//! A small map from names to values that keeps the order in which names came in.

use vstd::prelude::*;

use crate::entries;
use crate::text;

verus! {

/// A map from names to values, in the order in which the names were inserted.
#[derive(Debug, Clone)]
pub struct NameMap<V> {
    items: Vec<(String, V)>,
}

impl<V> View for NameMap<V> {
    type V = Map<Seq<char>, V>;

    open spec fn view(&self) -> Map<Seq<char>, V> {
        entries::as_map(self.entries())
    }
}

impl<V> NameMap<V> {
    /// No name occurs twice. Maps start like this and all that is done to them keeps it.
    pub open spec fn wf(&self) -> bool {
        entries::keys_differ(self.entries())
    }

    /// The entries in their order.
    pub closed spec fn entries(&self) -> Seq<(String, V)> {
        self.items@
    }

    /// Makes an empty map.
    pub fn new() -> (r: Self)
        ensures
            r.entries() == Seq::<(String, V)>::empty(),
            r@ == Map::<Seq<char>, V>::empty(),
            r.wf(),
    {
        let r = NameMap { items: Vec::new() };
        assert(r@ =~= Map::<Seq<char>, V>::empty());
        r
    }

    /// The entries themselves.
    pub fn into_entries(self) -> (r: Vec<(String, V)>)
        ensures
            r@ == self.entries(),
    {
        self.items
    }

    /// The number of entries.
    pub fn len(&self) -> (n: usize)
        ensures
            n == self.entries().len(),
    {
        self.items.len()
    }

    /// Whether there is no entry.
    pub fn is_empty(&self) -> (r: bool)
        ensures
            r == (self.entries().len() == 0),
    {
        self.items.len() == 0
    }

    /// The name of entry `i`.
    pub fn name_at(&self, i: usize) -> (r: &str)
        requires
            i < self.entries().len(),
        ensures
            r@ == self.entries()[i as int].0@,
    {
        self.items[i].0.as_str()
    }

    /// The name of entry `i`, as it is held.
    pub fn key_at(&self, i: usize) -> (r: &String)
        requires
            i < self.entries().len(),
        ensures
            *r == self.entries()[i as int].0,
    {
        &self.items[i].0
    }

    /// The value of entry `i`.
    pub fn value_at(&self, i: usize) -> (r: &V)
        requires
            i < self.entries().len(),
        ensures
            *r == self.entries()[i as int].1,
    {
        &self.items[i].1
    }

    /// Access to the value of entry `i` for writing.
    pub fn value_at_mut(&mut self, i: usize) -> (r: &mut V)
        requires
            i < old(self).entries().len(),
        ensures
            *r == old(self).entries()[i as int].1,
            final(self).entries() == old(self).entries().update(
                i as int,
                (old(self).entries()[i as int].0, *final(r)),
            ),
            old(self).wf() ==> final(self).wf(),
    {
        &mut self.items[i].1
    }

    /// Finds the first entry with a name.
    pub fn find(&self, name: &str) -> (r: Option<usize>)
        ensures
            match r {
                Some(i) => i < self.entries().len() && i == entries::position(self.entries(), name@),
                None => entries::position(self.entries(), name@) == self.entries().len(),
            },
    {
        let mut i: usize = 0;
        while i < self.items.len()
            invariant
                i <= self.items@.len(),
                forall|j: int| 0 <= j < i ==> (#[trigger] self.items@[j]).0@ != name@,
            decreases self.items@.len() - i,
        {
            if text::str_eq(self.items[i].0.as_str(), name) {
                proof {
                    entries::lemma_position(self.entries(), name@, i as int);
                }
                return Some(i);
            }
            i = i + 1;
        }
        proof {
            entries::lemma_position(self.entries(), name@, i as int);
        }
        None
    }

    /// The value of a name.
    pub fn get(&self, name: &str) -> (r: Option<&V>)
        ensures
            match r {
                Some(v) => self@.dom().contains(name@) && *v == self@[name@],
                None => !self@.dom().contains(name@),
            },
    {
        match self.find(name) {
            Some(i) => Some(&self.items[i].1),
            None => None,
        }
    }

    /// Access to the value of a name for writing.
    pub fn get_mut(&mut self, name: &str) -> (r: Option<&mut V>)
        ensures
            match r {
                Some(v) => {
                    let p = entries::position(old(self).entries(), name@);
                    &&& old(self)@.dom().contains(name@)
                    &&& *v == old(self)@[name@]
                    &&& final(self)@ == old(self)@.insert(name@, *final(v))
                    &&& old(self).wf() ==> final(self).wf()
                    &&& final(self).entries() == old(self).entries().update(
                        p,
                        (old(self).entries()[p].0, *final(v)),
                    )
                },
                None => !old(self)@.dom().contains(name@) && final(self).entries() == old(
                    self,
                ).entries(),
            },
    {
        let ghost before = self.entries();
        match self.find(name) {
            Some(i) => {
                let v = &mut self.items[i].1;
                proof {
                    entries::lemma_insert_at(before, name@, *final(v));
                }
                Some(v)
            },
            None => None,
        }
    }

    /// Gives a name a value. The entry keeps its place where there is one, else it comes last.
    pub fn insert(&mut self, name: String, value: V)
        ensures
            final(self)@ == old(self)@.insert(name@, value),
            old(self)@.dom().contains(name@) ==> ({
                let p = entries::position(old(self).entries(), name@);
                final(self).entries() == old(self).entries().update(
                    p,
                    (old(self).entries()[p].0, value),
                )
            }),
            !old(self)@.dom().contains(name@) ==> final(self).entries()
                == old(self).entries().push((name, value)),
            old(self).wf() ==> final(self).wf(),
    {
        let ghost before = self.entries();
        match self.find(name.as_str()) {
            Some(i) => {
                self.items[i].1 = value;
                proof {
                    entries::lemma_insert_at(before, name@, value);
                }
            },
            None => {
                self.items.push((name, value));
                proof {
                    entries::lemma_push(before, name, value);
                }
            },
        }
    }

    /// Takes a name out. The others keep their order.
    pub fn remove(&mut self, name: &str) -> (r: bool)
        ensures
            r == old(self)@.dom().contains(name@),
            final(self)@ == old(self)@.remove(name@),
            final(self).entries() == entries::without(old(self).entries(), name@),
            old(self).wf() ==> final(self).wf(),
    {
        let ghost before = self.entries();
        let found = self.find(name).is_some();
        let mut kept: Vec<(String, V)> = Vec::new();
        let mut rest: Vec<(String, V)> = Vec::new();
        std::mem::swap(&mut rest, &mut self.items);
        for e in it: rest
            invariant
                it.seq() == before,
                kept@ == entries::without(before.take(it.index()), name@),
        {
            proof {
                let k = it.index();
                let t = before.take(k + 1);
                assert(t.drop_last() == before.take(k));
                assert(t.last() == e);
            }
            if !text::str_eq(e.0.as_str(), name) {
                kept.push(e);
            }
        }
        assert(before.take(before.len() as int) == before);
        self.items = kept;
        proof {
            entries::lemma_without(before, name@);
        }
        found
    }
}

impl NameMap<String> {
    /// Copies a map of texts.
    pub fn copy(&self) -> (r: Self)
        ensures
            r.entries() == self.entries(),
            r@ == self@,
    {
        let mut items: Vec<(String, String)> = Vec::new();
        let mut i: usize = 0;
        while i < self.items.len()
            invariant
                i <= self.items@.len(),
                items@ == self.items@.take(i as int),
            decreases self.items@.len() - i,
        {
            items.push((self.items[i].0.clone(), self.items[i].1.clone()));
            i = i + 1;
            assert(self.items@.take(i as int) == self.items@.take(i - 1).push(self.items@[i - 1]));
        }
        assert(self.items@.take(i as int) == self.items@);
        NameMap { items }
    }
}

} // verus!
