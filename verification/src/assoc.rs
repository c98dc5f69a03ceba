//! Association lists: vectors of entries with distinct keys, viewed as maps.

use vstd::prelude::*;

verus! {

/// The map that a sequence of entries denotes: a later entry for a key
/// overrides an earlier one.
pub open spec fn assoc_map<E, K, V>(s: Seq<E>, key: spec_fn(E) -> K, val: spec_fn(E) -> V) -> Map<K, V>
    decreases s.len(),
{
    if s.len() == 0 {
        Map::empty()
    } else {
        assoc_map(s.drop_last(), key, val).insert(key(s.last()), val(s.last()))
    }
}

/// No key occurs twice.
pub open spec fn keys_distinct<E, K>(s: Seq<E>, key: spec_fn(E) -> K) -> bool {
    forall|i: int, j: int| 0 <= i < j < s.len() ==> key(s[i]) != key(s[j])
}

/// A key is present exactly when some entry carries it.
pub proof fn lemma_assoc_contains<E, K, V>(
    s: Seq<E>,
    key: spec_fn(E) -> K,
    val: spec_fn(E) -> V,
    k: K,
)
    ensures
        assoc_map(s, key, val).contains_key(k) <==> exists|i: int| 0 <= i < s.len() && key(s[i]) == k,
        assoc_map(s, key, val).dom().finite(),
    decreases s.len(),
{
    if s.len() > 0 {
        lemma_assoc_contains(s.drop_last(), key, val, k);
        if assoc_map(s, key, val).contains_key(k) {
            if key(s.last()) != k {
                let i = choose|i: int| 0 <= i < s.drop_last().len() && key(s.drop_last()[i]) == k;
                assert(key(s[i]) == k);
            } else {
                assert(key(s[s.len() - 1]) == k);
            }
        }
        if exists|i: int| 0 <= i < s.len() && key(s[i]) == k {
            let i = choose|i: int| 0 <= i < s.len() && key(s[i]) == k;
            if i < s.len() - 1 {
                assert(key(s.drop_last()[i]) == k);
            }
        }
    }
}

/// With distinct keys, the entry at `i` gives the value of its key.
pub proof fn lemma_assoc_value<E, K, V>(s: Seq<E>, key: spec_fn(E) -> K, val: spec_fn(E) -> V, i: int)
    requires
        keys_distinct(s, key),
        0 <= i < s.len(),
    ensures
        assoc_map(s, key, val).contains_key(key(s[i])),
        assoc_map(s, key, val)[key(s[i])] == val(s[i]),
    decreases s.len(),
{
    if i < s.len() - 1 {
        assert(keys_distinct(s.drop_last(), key));
        lemma_assoc_value(s.drop_last(), key, val, i);
        assert(s.drop_last()[i] == s[i]);
        assert(key(s.last()) != key(s[i]));
    }
}

/// Appending an entry inserts it.
pub proof fn lemma_assoc_push<E, K, V>(s: Seq<E>, key: spec_fn(E) -> K, val: spec_fn(E) -> V, e: E)
    ensures
        assoc_map(s.push(e), key, val) == assoc_map(s, key, val).insert(key(e), val(e)),
{
    assert(s.push(e).drop_last() =~= s);
}

/// Replacing the entry at `i` by one with the same key updates that key.
pub proof fn lemma_assoc_update<E, K, V>(
    s: Seq<E>,
    key: spec_fn(E) -> K,
    val: spec_fn(E) -> V,
    i: int,
    e: E,
)
    requires
        keys_distinct(s, key),
        0 <= i < s.len(),
        key(e) == key(s[i]),
    ensures
        assoc_map(s.update(i, e), key, val) == assoc_map(s, key, val).insert(key(e), val(e)),
        keys_distinct(s.update(i, e), key),
    decreases s.len(),
{
    let t = s.update(i, e);
    if i == s.len() - 1 {
        assert(t.drop_last() =~= s.drop_last());
        assert(keys_distinct(s.drop_last(), key));
        lemma_assoc_contains(s.drop_last(), key, val, key(e));
        assert(assoc_map(t, key, val) =~= assoc_map(s, key, val).insert(key(e), val(e)));
    } else {
        assert(t.drop_last() =~= s.drop_last().update(i, e));
        assert(keys_distinct(s.drop_last(), key));
        lemma_assoc_update(s.drop_last(), key, val, i, e);
        assert(key(s.last()) != key(e));
        assert(assoc_map(t, key, val) =~= assoc_map(s, key, val).insert(key(e), val(e)));
    }
}

/// With distinct keys, the map has one key per entry.
pub proof fn lemma_assoc_len<E, K, V>(s: Seq<E>, key: spec_fn(E) -> K, val: spec_fn(E) -> V)
    requires
        keys_distinct(s, key),
    ensures
        assoc_map(s, key, val).dom().finite(),
        assoc_map(s, key, val).len() == s.len(),
    decreases s.len(),
{
    lemma_assoc_contains(s, key, val, key(s.last()));
    if s.len() > 0 {
        let t = s.drop_last();
        assert(keys_distinct(t, key));
        lemma_assoc_len(t, key, val);
        lemma_assoc_contains(t, key, val, key(s.last()));
        if assoc_map(t, key, val).contains_key(key(s.last())) {
            let i = choose|i: int| 0 <= i < t.len() && key(t[i]) == key(s.last());
            assert(key(s[i]) == key(s[s.len() - 1]));
        }
    }
}

/// Removing the entry at `i` removes its key.
pub proof fn lemma_assoc_remove<E, K, V>(s: Seq<E>, key: spec_fn(E) -> K, val: spec_fn(E) -> V, i: int)
    requires
        keys_distinct(s, key),
        0 <= i < s.len(),
    ensures
        assoc_map(s.remove(i), key, val) == assoc_map(s, key, val).remove(key(s[i])),
        keys_distinct(s.remove(i), key),
    decreases s.len(),
{
    let t = s.remove(i);
    assert(keys_distinct(s.drop_last(), key));
    if i == s.len() - 1 {
        assert(t =~= s.drop_last());
        lemma_assoc_contains(s.drop_last(), key, val, key(s[i]));
        assert(assoc_map(t, key, val) =~= assoc_map(s, key, val).remove(key(s[i])));
    } else {
        lemma_assoc_remove(s.drop_last(), key, val, i);
        assert(t.drop_last() =~= s.drop_last().remove(i));
        assert(t.last() == s.last());
        assert(key(s.last()) != key(s[i]));
        assert(assoc_map(t, key, val) =~= assoc_map(s, key, val).remove(key(s[i])));
    }
}

} // verus!
