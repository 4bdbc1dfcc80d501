//! Lists of keys and values as maps.

use vstd::prelude::*;

verus! {

/// The map that holds under each key the value at the same place.
pub open spec fn as_map<K, V>(keys: Seq<K>, values: Seq<V>) -> Map<K, V> {
    Map::new(|key: K| keys.contains(key), |key: K| values[keys.index_of(key)])
}

/// Distinct keys stand where their values do.
pub proof fn lemma_entry<K, V>(keys: Seq<K>, values: Seq<V>, i: int)
    requires
        keys.no_duplicates(),
        0 <= i < keys.len(),
    ensures
        keys.index_of(keys[i]) == i,
        as_map(keys, values).contains_key(keys[i]),
        as_map(keys, values)[keys[i]] == values[i],
{
    assert(keys.contains(keys[i]));
}

/// A list without entries is the empty map.
pub proof fn lemma_empty<K, V>(keys: Seq<K>, values: Seq<V>)
    requires
        keys.len() == 0,
    ensures
        as_map(keys, values) == Map::<K, V>::empty(),
{
    assert(as_map(keys, values) =~= Map::<K, V>::empty());
}

/// A list has finitely many keys.
pub proof fn lemma_finite<K, V>(keys: Seq<K>, values: Seq<V>)
    ensures
        as_map(keys, values).dom().finite(),
{
    assert(as_map(keys, values).dom() =~= keys.to_set());
    vstd::seq_lib::seq_to_set_is_finite(keys);
}

/// Another value at a place is another value of the key there.
pub proof fn lemma_update<K, V>(keys: Seq<K>, values: Seq<V>, i: int, value: V)
    requires
        keys.no_duplicates(),
        keys.len() == values.len(),
        0 <= i < keys.len(),
    ensures
        as_map(keys, values.update(i, value)) == as_map(keys, values).insert(keys[i], value),
{
    lemma_entry(keys, values, i);
    let after = values.update(i, value);
    assert forall|key: K| #[trigger] as_map(keys, after).contains_key(key) implies as_map(
        keys,
        after,
    )[key] == as_map(keys, values).insert(keys[i], value)[key] by {
        let k = keys.index_of(key);
        assert(keys[k] == key);
    }
    assert(as_map(keys, after) =~= as_map(keys, values).insert(keys[i], value));
}

/// A new key at the end is a new key of the map.
pub proof fn lemma_push<K, V>(keys: Seq<K>, values: Seq<V>, key: K, value: V)
    requires
        keys.no_duplicates(),
        keys.len() == values.len(),
        !keys.contains(key),
    ensures
        keys.push(key).no_duplicates(),
        as_map(keys.push(key), values.push(value)) == as_map(keys, values).insert(key, value),
{
    let before = as_map(keys, values);
    let after = as_map(keys.push(key), values.push(value));
    let last = keys.len() as int;
    assert forall|k: K| #[trigger] after.contains_key(k) <==> before.insert(
        key,
        value,
    ).contains_key(k) by {
        if keys.contains(k) {
            assert(keys.push(key)[keys.index_of(k)] == k);
        }
        assert(keys.push(key)[last] == key);
    }
    assert forall|k: K| #[trigger] after.contains_key(k) implies after[k] == before.insert(
        key,
        value,
    )[k] by {
        let i = keys.push(key).index_of(k);
        lemma_entry(keys.push(key), values.push(value), i);
        if i < last {
            lemma_entry(keys, values, i);
        }
    }
    assert(after =~= before.insert(key, value));
}

/// Without an entry the map is without its key.
pub proof fn lemma_remove<K, V>(keys: Seq<K>, values: Seq<V>, at: int)
    requires
        keys.no_duplicates(),
        keys.len() == values.len(),
        0 <= at < keys.len(),
    ensures
        keys.remove(at).no_duplicates(),
        as_map(keys.remove(at), values.remove(at)) == as_map(keys, values).remove(keys[at]),
{
    let before = as_map(keys, values);
    let rest = keys.remove(at);
    let after = as_map(rest, values.remove(at));
    assert forall|i: int| 0 <= i < rest.len() implies #[trigger] rest[i] == keys[if i < at {
        i
    } else {
        i + 1
    }] by {}
    assert forall|k: K| #[trigger] after.contains_key(k) <==> before.remove(keys[at]).contains_key(
        k,
    ) by {
        if rest.contains(k) {
            let i = rest.index_of(k);
            assert(rest[i] == k);
            let p = if i < at {
                i
            } else {
                i + 1
            };
            assert(keys[p] == k);
        }
        if keys.contains(k) && k != keys[at] {
            let p = keys.index_of(k);
            assert(rest[if p < at {
                p
            } else {
                p - 1
            }] == k);
        }
    }
    assert forall|k: K| #[trigger] after.contains_key(k) implies after[k] == before.remove(
        keys[at],
    )[k] by {
        let i = rest.index_of(k);
        let p = if i < at {
            i
        } else {
            i + 1
        };
        assert(rest[i] == k);
        lemma_entry(rest, values.remove(at), i);
        lemma_entry(keys, values, p);
    }
    assert(after =~= before.remove(keys[at]));
}

} // verus!
