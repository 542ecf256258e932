//! Association-sequence machinery. Both the swarm (peers keyed by peer id)
//! and the torrent store (swarms keyed by info hash) hold their entries in a
//! vector whose elements carry their own key; the mathematical model of such
//! a vector is the map from keys to elements. These lemmas relate the vector
//! operations the containers use (push, remove) to operations on that map.

use vstd::prelude::*;
use vstd::map::*;

verus! {

/// The map that an association sequence denotes; a later entry wins,
/// though the containers keep keys unique so the case never arises.
pub open spec fn keyed_map<K, V>(s: Seq<V>, key: spec_fn(V) -> K) -> Map<K, V>
    decreases s.len(),
{
    if s.len() == 0 {
        Map::empty()
    } else {
        keyed_map(s.drop_last(), key).insert(key(s.last()), s.last())
    }
}

/// No two entries of the sequence carry the same key.
pub open spec fn unique_keys<K, V>(s: Seq<V>, key: spec_fn(V) -> K) -> bool {
    forall|i: int, j: int| 0 <= i < j < s.len() ==> key(s[i]) != key(s[j])
}

/// A key is in the denoted map exactly when some entry carries it.
pub proof fn lemma_keyed_map_contains<K, V>(s: Seq<V>, key: spec_fn(V) -> K, k: K)
    ensures
        keyed_map(s, key).dom().contains(k) <==> (exists|i: int|
            0 <= i < s.len() && key(s[i]) == k),
    decreases s.len(),
{
    if s.len() == 0 {
    } else {
        lemma_keyed_map_contains(s.drop_last(), key, k);
        if key(s.last()) == k {
            assert(key(s[s.len() - 1]) == k);
        } else {
            if keyed_map(s, key).dom().contains(k) {
                let i = choose|i: int| 0 <= i < s.drop_last().len() && key(s.drop_last()[i]) == k;
                assert(s.drop_last()[i] == s[i]);
            }
            if exists|i: int| 0 <= i < s.len() && key(s[i]) == k {
                let i = choose|i: int| 0 <= i < s.len() && key(s[i]) == k;
                assert(i < s.len() - 1);
                assert(s.drop_last()[i] == s[i]);
            }
        }
    }
}

/// Dropping the last entry keeps keys unique.
pub proof fn lemma_unique_drop_last<K, V>(s: Seq<V>, key: spec_fn(V) -> K)
    requires
        unique_keys(s, key),
        s.len() > 0,
    ensures
        unique_keys(s.drop_last(), key),
{
    assert forall|i: int, j: int|
        0 <= i < j < s.drop_last().len() implies key(s.drop_last()[i]) != key(
        s.drop_last()[j],
    ) by {
        assert(s.drop_last()[i] == s[i]);
        assert(s.drop_last()[j] == s[j]);
    }
}

/// Under unique keys, the entry at any index is what the map holds for its key.
pub proof fn lemma_keyed_map_index<K, V>(s: Seq<V>, key: spec_fn(V) -> K, i: int)
    requires
        unique_keys(s, key),
        0 <= i < s.len(),
    ensures
        keyed_map(s, key).dom().contains(key(s[i])),
        keyed_map(s, key)[key(s[i])] == s[i],
    decreases s.len(),
{
    if i == s.len() - 1 {
    } else {
        lemma_unique_drop_last(s, key);
        assert(s.drop_last()[i] == s[i]);
        lemma_keyed_map_index(s.drop_last(), key, i);
        assert(key(s[i]) != key(s[s.len() - 1]));
    }
}

/// Appending an entry inserts it into the denoted map.
pub proof fn lemma_keyed_map_push<K, V>(s: Seq<V>, key: spec_fn(V) -> K, v: V)
    ensures
        keyed_map(s.push(v), key) == keyed_map(s, key).insert(key(v), v),
{
    assert(s.push(v).drop_last() =~= s);
    assert(s.push(v).last() == v);
}

/// Appending an entry whose key is fresh keeps keys unique.
pub proof fn lemma_unique_push<K, V>(s: Seq<V>, key: spec_fn(V) -> K, v: V)
    requires
        unique_keys(s, key),
        forall|i: int| 0 <= i < s.len() ==> key(s[i]) != key(v),
    ensures
        unique_keys(s.push(v), key),
{
    assert forall|i: int, j: int|
        0 <= i < j < s.push(v).len() implies key(s.push(v)[i]) != key(s.push(v)[j]) by {
        if j < s.len() {
            assert(s.push(v)[i] == s[i]);
            assert(s.push(v)[j] == s[j]);
        } else {
            assert(s.push(v)[i] == s[i]);
            assert(s.push(v)[j] == v);
        }
    }
}

/// Removing an entry keeps keys unique.
pub proof fn lemma_unique_remove<K, V>(s: Seq<V>, key: spec_fn(V) -> K, i: int)
    requires
        unique_keys(s, key),
        0 <= i < s.len(),
    ensures
        unique_keys(s.remove(i), key),
{
    assert forall|a: int, b: int|
        0 <= a < b < s.remove(i).len() implies key(s.remove(i)[a]) != key(s.remove(i)[b]) by {
        let a0: int = if a < i { a } else { a + 1 };
        let b0: int = if b < i { b } else { b + 1 };
        assert(s.remove(i)[a] == s[a0]);
        assert(s.remove(i)[b] == s[b0]);
    }
}

/// Under unique keys, removing the entry at an index removes its key
/// from the denoted map.
pub proof fn lemma_keyed_map_remove<K, V>(s: Seq<V>, key: spec_fn(V) -> K, i: int)
    requires
        unique_keys(s, key),
        0 <= i < s.len(),
    ensures
        keyed_map(s.remove(i), key) == keyed_map(s, key).remove(key(s[i])),
    decreases s.len(),
{
    lemma_keyed_map_contains(s.drop_last(), key, key(s[i]));
    lemma_unique_drop_last(s, key);
    if i == s.len() - 1 {
        assert(s.remove(i) =~= s.drop_last());
        // the removed key is fresh in the prefix, so removing it is a no-op there
        assert(forall|j: int|
            0 <= j < s.drop_last().len() ==> key(s.drop_last()[j]) == key(s[j]) && key(s[j]) != key(
                s[i],
            ));
        assert(!keyed_map(s.drop_last(), key).dom().contains(key(s[i])));
        assert(keyed_map(s.remove(i), key) =~= keyed_map(s, key).remove(key(s[i])));
    } else {
        assert(s.remove(i).drop_last() =~= s.drop_last().remove(i));
        assert(s.remove(i).last() == s.last());
        lemma_keyed_map_remove(s.drop_last(), key, i);
        assert(s.drop_last()[i] == s[i]);
        assert(key(s[i]) != key(s.last()));
        assert(keyed_map(s.remove(i), key) == keyed_map(s.drop_last().remove(i), key).insert(
            key(s.last()),
            s.last(),
        ));
        assert(keyed_map(s.remove(i), key) =~= keyed_map(s, key).remove(key(s[i])));
    }
}

/// Under unique keys, the denoted map has exactly one entry per element.
pub proof fn lemma_keyed_map_len<K, V>(s: Seq<V>, key: spec_fn(V) -> K)
    requires
        unique_keys(s, key),
    ensures
        keyed_map(s, key).dom().finite(),
        keyed_map(s, key).dom().len() == s.len(),
    decreases s.len(),
{
    if s.len() == 0 {
        assert(keyed_map(s, key).dom() =~= Set::<K>::empty());
    } else {
        lemma_unique_drop_last(s, key);
        lemma_keyed_map_len(s.drop_last(), key);
        lemma_keyed_map_contains(s.drop_last(), key, key(s.last()));
        assert(forall|j: int|
            0 <= j < s.drop_last().len() ==> key(s.drop_last()[j]) == key(s[j]) && key(s[j]) != key(
                s.last(),
            ));
        assert(!keyed_map(s.drop_last(), key).dom().contains(key(s.last())));
    }
}

} // verus!
