//! Association-vector model shared by the keyed caches.
//!
//! Each cache stores its entries as a vector of `(key, value)` pairs with
//! pairwise-distinct keys and is specified through the map those entries
//! denote. The spec functions and lemmas here relate the entry sequence to
//! that map: membership, lookup, and the effect of an upsert.

use vstd::prelude::*;

verus! {

/// The map denoted by an entry sequence; a later entry overrides an earlier
/// one with the same key (with distinct keys the order is immaterial).
pub open spec fn kv_map<K, V>(es: Seq<(K, V)>) -> Map<K, V>
    decreases es.len(),
{
    if es.len() == 0 {
        Map::empty()
    } else {
        kv_map(es.drop_last()).insert(es.last().0, es.last().1)
    }
}

/// Some entry holds key `k`.
pub open spec fn kv_has_key<K, V>(es: Seq<(K, V)>, k: K) -> bool {
    exists|i: int| 0 <= i < es.len() && (#[trigger] es[i]).0 == k
}

/// The index of the entry holding key `k` (unique when `kv_unique` holds).
pub open spec fn kv_index_of<K, V>(es: Seq<(K, V)>, k: K) -> int {
    choose|i: int| 0 <= i < es.len() && (#[trigger] es[i]).0 == k
}

/// Each key appears in at most one entry.
pub open spec fn kv_unique<K, V>(es: Seq<(K, V)>) -> bool {
    forall|i: int, j: int|
        0 <= i < j < es.len() ==> (#[trigger] es[i]).0 != (#[trigger] es[j]).0
}

/// The entry sequence after writing `v` under `k`: replaced in place where
/// the key is already present, appended otherwise.
pub open spec fn kv_upsert<K, V>(es: Seq<(K, V)>, k: K, v: V) -> Seq<(K, V)> {
    if kv_has_key(es, k) {
        es.update(kv_index_of(es, k), (k, v))
    } else {
        es.push((k, v))
    }
}

/// A key is in the denoted map exactly when some entry holds it.
pub proof fn lemma_kv_map_membership<K, V>(es: Seq<(K, V)>, k: K)
    ensures
        kv_map(es).contains_key(k) == kv_has_key(es, k),
    decreases es.len(),
{
    if es.len() == 0 {
    } else {
        lemma_kv_map_membership(es.drop_last(), k);
        assert(forall|i: int|
            0 <= i < es.len() - 1 ==> (#[trigger] es.drop_last()[i]) == es[i]);
        if es.last().0 == k {
            assert(kv_has_key(es, k)) by {
                assert((es[es.len() - 1]).0 == k);
            }
        } else {
            if kv_has_key(es, k) {
                let i = choose|i: int| 0 <= i < es.len() && (#[trigger] es[i]).0 == k;
                assert((es.drop_last()[i]).0 == k);
            }
            if kv_has_key(es.drop_last(), k) {
                let i = choose|i: int|
                    0 <= i < es.drop_last().len() && (#[trigger] es.drop_last()[i]).0 == k;
                assert((es[i]).0 == k);
            }
        }
    }
}

/// With distinct keys, the entry at index `i` is the map's binding for its key.
pub proof fn lemma_kv_map_index<K, V>(es: Seq<(K, V)>, i: int)
    requires
        kv_unique(es),
        0 <= i < es.len(),
    ensures
        kv_map(es).contains_key(es[i].0),
        kv_map(es)[es[i].0] == es[i].1,
    decreases es.len(),
{
    if i == es.len() - 1 {
    } else {
        assert(kv_unique(es.drop_last())) by {
            assert(forall|m: int, n: int|
                0 <= m < n < es.len() - 1 ==> (#[trigger] es.drop_last()[m]).0
                    != (#[trigger] es.drop_last()[n]).0) by {
                assert(forall|m: int|
                    0 <= m < es.len() - 1 ==> (#[trigger] es.drop_last()[m]) == es[m]);
            }
        }
        assert(es.drop_last()[i] == es[i]);
        lemma_kv_map_index(es.drop_last(), i);
        assert(es.last() == es[es.len() - 1]);
        assert(es.last().0 != es[i].0);
    }
}

/// With distinct keys, an index whose entry holds `k` is `kv_index_of(es, k)`.
pub proof fn lemma_kv_index_of_unique<K, V>(es: Seq<(K, V)>, k: K, i: int)
    requires
        kv_unique(es),
        0 <= i < es.len(),
        es[i].0 == k,
    ensures
        kv_has_key(es, k),
        kv_index_of(es, k) == i,
{
    assert(kv_has_key(es, k));
    let j = kv_index_of(es, k);
    assert(0 <= j < es.len() && es[j].0 == k);
    if i < j {
        assert(es[i].0 != es[j].0);
    } else if j < i {
        assert(es[j].0 != es[i].0);
    }
}

/// Restricting a unique entry sequence to its prefix keeps keys unique.
pub proof fn lemma_kv_unique_drop_last<K, V>(es: Seq<(K, V)>)
    requires
        kv_unique(es),
        es.len() > 0,
    ensures
        kv_unique(es.drop_last()),
{
    assert(forall|m: int|
        0 <= m < es.len() - 1 ==> (#[trigger] es.drop_last()[m]) == es[m]);
}

/// An upsert denotes `insert` on the map and keeps keys unique.
pub proof fn lemma_kv_upsert_map<K, V>(es: Seq<(K, V)>, k: K, v: V)
    requires
        kv_unique(es),
    ensures
        kv_map(kv_upsert(es, k, v)) == kv_map(es).insert(k, v),
        kv_unique(kv_upsert(es, k, v)),
        kv_upsert(es, k, v).len() == if kv_has_key(es, k) {
            es.len() as int
        } else {
            es.len() + 1 as int
        },
    decreases es.len(),
{
    if !kv_has_key(es, k) {
        let es2 = es.push((k, v));
        assert(es2.drop_last() =~= es);
        assert(kv_map(es2) == kv_map(es).insert(k, v));
        assert(kv_unique(es2)) by {
            assert(forall|m: int| 0 <= m < es.len() ==> (#[trigger] es2[m]) == es[m]);
            assert(forall|m: int| 0 <= m < es.len() ==> (#[trigger] es[m]).0 != k);
        }
    } else {
        let i = kv_index_of(es, k);
        assert(0 <= i < es.len() && es[i].0 == k);
        let es2 = es.update(i, (k, v));
        assert(kv_unique(es2)) by {
            assert(forall|m: int| 0 <= m < es.len() ==> (#[trigger] es2[m]).0 == es[m].0);
        }
        if i == es.len() - 1 {
            assert(es2.drop_last() =~= es.drop_last());
            assert(es2.last() == (k, v));
            assert(es.last().0 == k);
            assert(kv_map(es2) == kv_map(es.drop_last()).insert(k, v));
            assert(kv_map(es) == kv_map(es.drop_last()).insert(k, es.last().1));
            assert(kv_map(es.drop_last()).insert(k, es.last().1).insert(k, v)
                =~= kv_map(es.drop_last()).insert(k, v));
        } else {
            lemma_kv_unique_drop_last(es);
            assert(es.drop_last()[i] == es[i]);
            lemma_kv_index_of_unique(es.drop_last(), k, i);
            assert(kv_upsert(es.drop_last(), k, v) == es.drop_last().update(i, (k, v)));
            lemma_kv_upsert_map(es.drop_last(), k, v);
            assert(es2.drop_last() =~= es.drop_last().update(i, (k, v)));
            assert(es2.last() == es.last());
            assert(kv_map(es2) == kv_map(es.drop_last()).insert(k, v).insert(
                es.last().0,
                es.last().1,
            ));
            assert(es.last() == es[es.len() - 1]);
            assert(es.last().0 != k);
            assert(kv_map(es.drop_last()).insert(k, v).insert(es.last().0, es.last().1)
                =~= kv_map(es.drop_last()).insert(es.last().0, es.last().1).insert(k, v));
        }
    }
}

} // verus!
