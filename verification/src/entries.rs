//! Lists of keys and values that are read as maps. A key counts by its view.

use vstd::prelude::*;

verus! {

/// The index of the first entry with this key; the number of entries if there is none.
pub open spec fn position<K: View, T>(entries: Seq<(K, T)>, key: K::V) -> int
    decreases entries.len(),
{
    if entries.len() == 0 || entries[0].0@ == key {
        0
    } else {
        1 + position(entries.skip(1), key)
    }
}

/// `position` is the only index that has the key and before which the key does not occur.
pub proof fn lemma_position<K: View, T>(entries: Seq<(K, T)>, key: K::V, k: int)
    requires
        0 <= k <= entries.len(),
        forall|i: int| 0 <= i < k ==> (#[trigger] entries[i]).0@ != key,
        k < entries.len() ==> entries[k].0@ == key,
    ensures
        position(entries, key) == k,
    decreases k,
{
    if k > 0 {
        assert(entries[0].0@ != key);
        let rest = entries.skip(1);
        assert forall|i: int| 0 <= i < k - 1 implies (#[trigger] rest[i]).0@ != key by {
            assert(rest[i] == entries[i + 1]);
        }
        lemma_position(rest, key, k - 1);
    }
}

/// What holds of `position` in any case.
pub proof fn lemma_position_bounds<K: View, T>(entries: Seq<(K, T)>, key: K::V)
    ensures
        0 <= position(entries, key) <= entries.len(),
        position(entries, key) < entries.len() ==> entries[position(entries, key)].0@ == key,
        forall|i: int|
            0 <= i < position(entries, key) ==> (#[trigger] entries[i]).0@ != key,
    decreases entries.len(),
{
    if entries.len() > 0 && entries[0].0@ != key {
        let rest = entries.skip(1);
        lemma_position_bounds(rest, key);
        assert forall|i: int| 0 <= i < position(entries, key) implies (#[trigger] entries[i]).0@
            != key by {
            if i > 0 {
                assert(rest[i - 1] == entries[i]);
            }
        }
    }
}

/// The entries without those of one key.
pub open spec fn without<K: View, T>(entries: Seq<(K, T)>, key: K::V) -> Seq<(K, T)>
    decreases entries.len(),
{
    if entries.len() == 0 {
        entries
    } else if entries.last().0@ == key {
        without(entries.drop_last(), key)
    } else {
        without(entries.drop_last(), key).push(entries.last())
    }
}

/// Whether no key occurs twice.
pub open spec fn keys_differ<K: View, T>(entries: Seq<(K, T)>) -> bool {
    forall|i: int, j: int|
        0 <= i < j < entries.len() ==> (#[trigger] entries[i]).0@ != (#[trigger] entries[j]).0@
}

/// What the entries map names to: the first entry of a key counts.
pub open spec fn as_map<K: View, T>(entries: Seq<(K, T)>) -> Map<K::V, T> {
    Map::new(
        |n: K::V| position(entries, n) < entries.len(),
        |n: K::V| entries[position(entries, n)].1,
    )
}

/// What a new value for a key does to the map.
pub proof fn lemma_insert_at<K: View, T>(entries: Seq<(K, T)>, key: K::V, value: T)
    requires
        position(entries, key) < entries.len(),
    ensures
        ({
            let p = position(entries, key);
            let after = entries.update(p, (entries[p].0, value));
            &&& as_map(after) == as_map(entries).insert(key, value)
            &&& keys_differ(entries) ==> keys_differ(after)
        }),
{
    lemma_position_bounds(entries, key);
    let p = position(entries, key);
    let after = entries.update(p, (entries[p].0, value));
    assert forall|n: K::V| #[trigger] position(after, n) == position(entries, n) by {
        lemma_position_bounds(entries, n);
        let q = position(entries, n);
        assert forall|i: int| 0 <= i < q implies (#[trigger] after[i]).0@ != n by {
            assert(entries[i].0@ != n);
        }
        lemma_position(after, n, q);
    }
    assert(as_map(after) =~= as_map(entries).insert(key, value)) by {
        assert forall|n: K::V| as_map(after).dom().contains(n) implies #[trigger] as_map(
            after,
        )[n] == as_map(entries).insert(key, value)[n] by {
            lemma_position_bounds(entries, n);
            assert(position(after, n) == position(entries, n));
        }
        assert forall|n: K::V| #[trigger]
            as_map(after).dom().contains(n) == as_map(entries).insert(key, value).dom().contains(
                n,
            ) by {
            assert(position(after, n) == position(entries, n));
        }
    }
    if keys_differ(entries) {
        assert forall|i: int, j: int| 0 <= i < j < after.len() implies (#[trigger] after[i]).0@ != (
        #[trigger] after[j]).0@ by {
            assert(entries[i].0@ != entries[j].0@);
        }
    }
}

pub proof fn lemma_push<K: View, T>(entries: Seq<(K, T)>, new: K, value: T)
    requires
        position(entries, new@) == entries.len(),
    ensures
        as_map(entries.push((new, value))) == as_map(entries).insert(new@, value),
        keys_differ(entries) ==> keys_differ(entries.push((new, value))),
{
    let after = entries.push((new, value));
    lemma_position_bounds(entries, new@);
    assert forall|n: K::V| #[trigger]
        position(after, n) == (if position(entries, n) < entries.len() {
            position(entries, n)
        } else if n == new@ {
            entries.len() as int
        } else {
            after.len() as int
        }) by {
        lemma_position_bounds(entries, n);
        let q = position(entries, n);
        let r = if q < entries.len() || n == new@ {
            q
        } else {
            after.len() as int
        };
        assert forall|i: int| 0 <= i < r implies (#[trigger] after[i]).0@ != n by {
            if i < entries.len() {
                assert(after[i] == entries[i]);
            }
        }
        lemma_position(after, n, r);
    }
    assert(as_map(after) =~= as_map(entries).insert(new@, value)) by {
        assert forall|n: K::V| as_map(after).dom().contains(n) implies #[trigger] as_map(
            after,
        )[n] == as_map(entries).insert(new@, value)[n] by {
            lemma_position_bounds(entries, n);
            lemma_position_bounds(after, n);
            assert(0 <= position(after, n) < after.len());
        }
        assert forall|n: K::V| #[trigger]
            as_map(after).dom().contains(n) == as_map(entries).insert(new@, value).dom().contains(
                n,
            ) by {
            lemma_position_bounds(entries, n);
            assert(0 <= position(after, n));
        }
    }
    if keys_differ(entries) {
        assert forall|i: int, j: int| 0 <= i < j < after.len() implies (#[trigger] after[i]).0@ != (
        #[trigger] after[j]).0@ by {
            assert(after[i] == entries[i]);
            if j < entries.len() {
                assert(after[j] == entries[j]);
            }
        }
    }
}

/// Every entry that is left was there before, and every other key stays.
proof fn lemma_without_members<K: View, T>(entries: Seq<(K, T)>, key: K::V)
    ensures
        forall|e: (K, T)|
            without(entries, key).contains(e) <==> (#[trigger] entries.contains(e) && e.0@
                != key),
    decreases entries.len(),
{
    let after = without(entries, key);
    if entries.len() > 0 {
        let init = entries.drop_last();
        lemma_without_members(init, key);
        let rest = without(init, key);
        assert forall|e: (K, T)|
            after.contains(e) <==> (#[trigger] entries.contains(e) && e.0@ != key) by {
            if init.contains(e) {
                let i = choose|i: int| 0 <= i < init.len() && init[i] == e;
                assert(entries[i] == e);
                if e.0@ != key {
                    assert(rest.contains(e));
                    let j = choose|j: int| 0 <= j < rest.len() && rest[j] == e;
                    assert(after[j] == e);
                }
            }
            if entries.contains(e) && e.0@ != key {
                let i = choose|i: int| 0 <= i < entries.len() && entries[i] == e;
                if i < init.len() {
                    assert(init[i] == e);
                } else {
                    assert(after[after.len() - 1] == e);
                }
            }
            if after.contains(e) {
                let j = choose|j: int| 0 <= j < after.len() && after[j] == e;
                if j < rest.len() {
                    assert(rest[j] == e);
                    assert(rest.contains(e));
                    assert(init.contains(e));
                } else {
                    assert(entries[entries.len() - 1] == e);
                }
            }
        }
    }
}

/// The first entry of another key is the same after a removal.
proof fn lemma_without_first<K: View, T>(entries: Seq<(K, T)>, key: K::V, n: K::V)
    requires
        n != key,
    ensures
        position(entries, n) < entries.len() <==> position(without(entries, key), n) < without(
            entries,
            key,
        ).len(),
        position(entries, n) < entries.len() ==> without(entries, key)[position(
            without(entries, key),
            n,
        )] == entries[position(entries, n)],
    decreases entries.len(),
{
    let after = without(entries, key);
    lemma_position_bounds(entries, n);
    if entries.len() > 0 {
        let init = entries.drop_last();
        let rest = without(init, key);
        lemma_without_first(init, key, n);
        lemma_position_bounds(init, n);
        lemma_position_bounds(rest, n);
        let p = position(init, n);
        let q = position(rest, n);
        if p < init.len() {
            assert forall|i: int| 0 <= i < p implies (#[trigger] entries[i]).0@ != n by {
                assert(init[i] == entries[i]);
            }
            lemma_position(entries, n, p);
            assert forall|i: int| 0 <= i < q implies (#[trigger] after[i]).0@ != n by {
                assert(rest[i] == after[i]);
            }
            lemma_position(after, n, q);
        } else {
            let last = entries.last();
            let k = if last.0@ == n {
                entries.len() - 1
            } else {
                entries.len() as int
            };
            assert forall|i: int| 0 <= i < k implies (#[trigger] entries[i]).0@ != n by {
                if i < init.len() {
                    assert(init[i] == entries[i]);
                }
            }
            lemma_position(entries, n, k);
            let m = if last.0@ == n {
                rest.len() as int
            } else {
                after.len() as int
            };
            assert forall|i: int| 0 <= i < m implies (#[trigger] after[i]).0@ != n by {
                if i < rest.len() {
                    assert(rest[i] == after[i]);
                }
            }
            lemma_position(after, n, m);
        }
    }
}

proof fn lemma_without_keys_differ<K: View, T>(entries: Seq<(K, T)>, key: K::V)
    requires
        keys_differ(entries),
    ensures
        keys_differ(without(entries, key)),
    decreases entries.len(),
{
    if entries.len() > 0 {
        let init = entries.drop_last();
        let rest = without(init, key);
        let after = without(entries, key);
        assert(keys_differ(init)) by {
            assert forall|i: int, j: int| 0 <= i < j < init.len() implies (#[trigger] init[i]).0@
                != (#[trigger] init[j]).0@ by {
                assert(entries[i].0@ != entries[j].0@);
            }
        }
        lemma_without_keys_differ(init, key);
        lemma_without_members(init, key);
        assert forall|i: int, j: int| 0 <= i < j < after.len() implies (#[trigger] after[i]).0@ != (
        #[trigger] after[j]).0@ by {
            assert(after[i] == rest[i]);
            if j < rest.len() {
                assert(after[j] == rest[j]);
            } else {
                assert(rest.contains(rest[i]));
                assert(init.contains(rest[i]));
                let k = choose|k: int| 0 <= k < init.len() && init[k] == rest[i];
                assert(entries[k].0@ != entries[entries.len() - 1].0@);
            }
        }
    }
}

pub proof fn lemma_without<K: View, T>(entries: Seq<(K, T)>, key: K::V)
    ensures
        as_map(without(entries, key)) == as_map(entries).remove(key),
        keys_differ(entries) ==> keys_differ(without(entries, key)),
{
    let after = without(entries, key);
    lemma_without_members(entries, key);
    lemma_position_bounds(after, key);
    if position(after, key) < after.len() {
        let e = after[position(after, key)];
        assert(after.contains(e));
        assert(entries.contains(e));
    }
    assert(as_map(after) =~= as_map(entries).remove(key)) by {
        assert forall|n: K::V| #[trigger]
            as_map(after).dom().contains(n) == as_map(entries).remove(key).dom().contains(n) by {
            if n != key {
                lemma_without_first(entries, key, n);
            }
        }
        assert forall|n: K::V| as_map(after).dom().contains(n) implies #[trigger] as_map(
            after,
        )[n] == as_map(entries).remove(key)[n] by {
            if n != key {
                lemma_without_first(entries, key, n);
            }
        }
    }
    if keys_differ(entries) {
        lemma_without_keys_differ(entries, key);
    }
}

/// The first entry of a key counts, and a key without an entry has no value.
pub proof fn first_entry_counts<K: View, T>(entries: Seq<(K, T)>, key: K::V, i: int)
    requires
        0 <= i <= entries.len(),
        forall|j: int| 0 <= j < i ==> (#[trigger] entries[j]).0@ != key,
    ensures
        i < entries.len() && entries[i].0@ == key ==> as_map(entries).dom().contains(key)
            && as_map(entries)[key] == entries[i].1,
        i == entries.len() ==> !as_map(entries).dom().contains(key),
{
    if i == entries.len() || entries[i].0@ == key {
        lemma_position(entries, key, i);
    }
}

/// A removal keeps all entries of other keys, in their order.
pub proof fn removal_keeps_other_entries<K: View, T>(entries: Seq<(K, T)>, key: K::V)
    ensures
        without(entries, key) == entries.filter(|e: (K, T)| e.0@ != key),
    decreases entries.len(),
{
    reveal(Seq::filter);
    if entries.len() > 0 {
        removal_keeps_other_entries(entries.drop_last(), key);
    }
}

} // verus!
