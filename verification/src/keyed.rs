//! Lists as maps: each item of a list is found by its key.
use vstd::prelude::*;

verus! {

/// The items of a list by their keys.
pub open spec fn keyed<K, V>(list: Seq<V>, key: spec_fn(V) -> K) -> Map<K, V> {
    Map::new(
        |k: K| exists|i: int| 0 <= i < list.len() && key(#[trigger] list[i]) == k,
        |k: K| list[choose|i: int| 0 <= i < list.len() && key(#[trigger] list[i]) == k],
    )
}

/// No two items of a list have the same key.
pub open spec fn distinct_keys<K, V>(list: Seq<V>, key: spec_fn(V) -> K) -> bool {
    forall|i: int, j: int|
        0 <= i < j < list.len() ==> key(#[trigger] list[i]) != key(#[trigger] list[j])
}

/// `list` holds the items of a map, each of them once, in some order.
pub open spec fn lists_all<K, V>(list: Seq<V>, key: spec_fn(V) -> K, map: Map<K, V>) -> bool {
    distinct_keys(list, key) && keyed(list, key) == map
}

/// An item is found by its key.
pub proof fn lemma_keyed_item<K, V>(list: Seq<V>, key: spec_fn(V) -> K, i: int)
    requires
        distinct_keys(list, key),
        0 <= i < list.len(),
    ensures
        keyed(list, key).contains_key(key(list[i])),
        keyed(list, key)[key(list[i])] == list[i],
{
    let k = key(list[i]);
    let j = choose|j: int| 0 <= j < list.len() && key(#[trigger] list[j]) == k;
    assert(key(list[j]) == key(list[i]));
}

proof fn lemma_is_keyed<K, V>(list: Seq<V>, key: spec_fn(V) -> K, map: Map<K, V>)
    requires
        distinct_keys(list, key),
        forall|i: int|
            0 <= i < list.len() ==> map.contains_key(key(#[trigger] list[i])) && map[key(list[i])]
                == list[i],
        forall|k: K| #[trigger]
            map.contains_key(k) ==> exists|i: int|
                0 <= i < list.len() && key(#[trigger] list[i]) == k,
    ensures
        keyed(list, key) == map,
{
    assert forall|k: K| keyed(list, key).contains_key(k) implies keyed(list, key)[k] == map[k] by {
        let i = choose|i: int| 0 <= i < list.len() && key(#[trigger] list[i]) == k;
        assert(keyed(list, key)[k] == list[i]);
    }
    assert(keyed(list, key) =~= map);
}

/// Replacing an item by one with the same key.
pub proof fn lemma_keyed_update<K, V>(list: Seq<V>, key: spec_fn(V) -> K, i: int, new: V)
    requires
        distinct_keys(list, key),
        0 <= i < list.len(),
        key(list[i]) == key(new),
    ensures
        distinct_keys(list.update(i, new), key),
        keyed(list.update(i, new), key) == keyed(list, key).insert(key(new), new),
{
    let after = list.update(i, new);
    let map = keyed(list, key).insert(key(new), new);
    assert forall|a: int, b: int| 0 <= a < b < after.len() implies key(#[trigger] after[a]) != key(
        #[trigger] after[b],
    ) by {
        assert(key(list[a]) != key(list[b]));
    }
    assert forall|j: int| 0 <= j < after.len() implies map.contains_key(key(#[trigger] after[j]))
        && map[key(after[j])] == after[j] by {
        if j != i {
            assert(after[j] == list[j]);
            lemma_keyed_item(list, key, j);
            assert(key(after[j]) != key(after[i]));
        }
    }
    assert forall|k: K| #[trigger] map.contains_key(k) implies exists|j: int|
        0 <= j < after.len() && key(#[trigger] after[j]) == k by {
        if k == key(new) {
            assert(key(after[i]) == k);
        } else {
            let j = choose|j: int| 0 <= j < list.len() && key(#[trigger] list[j]) == k;
            assert(key(after[j]) == k);
        }
    }
    lemma_is_keyed(after, key, map);
}

/// Adding an item with a key that is not in use.
pub proof fn lemma_keyed_push<K, V>(list: Seq<V>, key: spec_fn(V) -> K, new: V)
    requires
        distinct_keys(list, key),
        !keyed(list, key).contains_key(key(new)),
    ensures
        distinct_keys(list.push(new), key),
        keyed(list.push(new), key) == keyed(list, key).insert(key(new), new),
{
    let after = list.push(new);
    let map = keyed(list, key).insert(key(new), new);
    assert forall|j: int| 0 <= j < list.len() implies key(#[trigger] list[j]) != key(new) by {
        lemma_keyed_item(list, key, j);
    }
    assert forall|a: int, b: int| 0 <= a < b < after.len() implies key(#[trigger] after[a]) != key(
        #[trigger] after[b],
    ) by {
        assert(after[a] == list[a]);
    }
    assert forall|j: int| 0 <= j < after.len() implies map.contains_key(key(#[trigger] after[j]))
        && map[key(after[j])] == after[j] by {
        if j < list.len() {
            assert(after[j] == list[j]);
            lemma_keyed_item(list, key, j);
        }
    }
    assert forall|k: K| #[trigger] map.contains_key(k) implies exists|j: int|
        0 <= j < after.len() && key(#[trigger] after[j]) == k by {
        if k == key(new) {
            assert(key(after[list.len() as int]) == k);
        } else {
            let j = choose|j: int| 0 <= j < list.len() && key(#[trigger] list[j]) == k;
            assert(key(after[j]) == k);
        }
    }
    lemma_is_keyed(after, key, map);
}

/// Removing an item.
pub proof fn lemma_keyed_remove<K, V>(list: Seq<V>, key: spec_fn(V) -> K, i: int)
    requires
        distinct_keys(list, key),
        0 <= i < list.len(),
    ensures
        distinct_keys(list.remove(i), key),
        keyed(list.remove(i), key) == keyed(list, key).remove(key(list[i])),
{
    let after = list.remove(i);
    let map = keyed(list, key).remove(key(list[i]));
    assert forall|a: int, b: int| 0 <= a < b < after.len() implies key(#[trigger] after[a]) != key(
        #[trigger] after[b],
    ) by {
        let c = if a < i { a } else { a + 1 };
        let d = if b < i { b } else { b + 1 };
        assert(key(list[c]) != key(list[d]));
    }
    assert forall|j: int| 0 <= j < after.len() implies map.contains_key(key(#[trigger] after[j]))
        && map[key(after[j])] == after[j] by {
        let c = if j < i { j } else { j + 1 };
        assert(after[j] == list[c]);
        lemma_keyed_item(list, key, c);
        assert(key(list[c]) != key(list[i]));
    }
    assert forall|k: K| #[trigger] map.contains_key(k) implies exists|j: int|
        0 <= j < after.len() && key(#[trigger] after[j]) == k by {
        let c = choose|c: int| 0 <= c < list.len() && key(#[trigger] list[c]) == k;
        let j = if c < i { c } else { c - 1 };
        assert(key(after[j]) == k);
    }
    lemma_is_keyed(after, key, map);
}

} // verus!
