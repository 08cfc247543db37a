//! Lists of pairs with distinct keys, read as finite maps.

use vstd::prelude::*;

verus! {

/// No key stands at two places of `entries`.
pub open spec fn distinct_keys<K, V>(entries: Seq<(K, V)>) -> bool {
    forall|i: int, j: int|
        0 <= i < j < entries.len() ==> (#[trigger] entries[i]).0 != (#[trigger] entries[j]).0
}

/// `key` stands at some place of `entries`.
pub open spec fn has_key<K, V>(entries: Seq<(K, V)>, key: K) -> bool {
    exists|i: int| 0 <= i < entries.len() && (#[trigger] entries[i]).0 == key
}

/// A place of `entries` at which `key` stands, if there is one.
pub open spec fn place_of<K, V>(entries: Seq<(K, V)>, key: K) -> int {
    choose|i: int| 0 <= i < entries.len() && (#[trigger] entries[i]).0 == key
}

/// The map that a list of entries stands for.
pub open spec fn as_map<K, V>(entries: Seq<(K, V)>) -> Map<K, V> {
    Map::new(
        |key: K| has_key(entries, key),
        |key: K| entries[place_of(entries, key)].1,
    )
}

/// With distinct keys, the entry at place `i` is what the map holds for its key.
pub proof fn lemma_entry_in_map<K, V>(entries: Seq<(K, V)>, i: int)
    requires
        distinct_keys(entries),
        0 <= i < entries.len(),
    ensures
        as_map(entries).contains_key(entries[i].0),
        as_map(entries)[entries[i].0] == entries[i].1,
        place_of(entries, entries[i].0) == i,
{
    let key = entries[i].0;
    assert(has_key(entries, key));
    let j = place_of(entries, key);
    assert(0 <= j < entries.len() && entries[j].0 == key);
    if j < i {
        assert(entries[j].0 != entries[i].0);
    } else if i < j {
        assert(entries[i].0 != entries[j].0);
    }
}

/// Replacing the entry at the place of its own key replaces the value in the map.
pub proof fn lemma_set_entry<K, V>(a: Seq<(K, V)>, i: int, entry: (K, V))
    requires
        distinct_keys(a),
        0 <= i < a.len(),
        a[i].0 == entry.0,
    ensures
        distinct_keys(a.update(i, entry)),
        as_map(a.update(i, entry)) == as_map(a).insert(entry.0, entry.1),
{
    let b = a.update(i, entry);
    assert forall|p: int, q: int| 0 <= p < q < b.len() implies (#[trigger] b[p]).0 != (
    #[trigger] b[q]).0 by {
        assert(a[p].0 != a[q].0);
    }
    assert forall|p: int| 0 <= p < a.len() implies (#[trigger] b[p]).0 == a[p].0 by {}
    assert forall|key: K| has_key(a, key) == has_key(b, key) by {
        if has_key(a, key) {
            let p = place_of(a, key);
            assert(b[p].0 == key);
        }
        if has_key(b, key) {
            let p = place_of(b, key);
            assert(a[p].0 == key);
        }
    }
    assert(has_key(b, entry.0)) by {
        assert(b[i].0 == entry.0);
    }
    let target = as_map(a).insert(entry.0, entry.1);
    assert forall|key: K| has_key(b, key) implies as_map(b)[key] == target[key] by {
        let p = place_of(b, key);
        lemma_entry_in_map(b, p);
        if p != i {
            assert(a[p].0 == key);
            lemma_entry_in_map(a, p);
        }
    }
    assert(as_map(b) =~= target);
}

/// Appending an entry with a new key adds it to the map.
pub proof fn lemma_push_entry<K, V>(a: Seq<(K, V)>, entry: (K, V))
    requires
        distinct_keys(a),
        !has_key(a, entry.0),
    ensures
        distinct_keys(a.push(entry)),
        as_map(a.push(entry)) == as_map(a).insert(entry.0, entry.1),
{
    let b = a.push(entry);
    assert forall|p: int, q: int| 0 <= p < q < b.len() implies (#[trigger] b[p]).0 != (
    #[trigger] b[q]).0 by {
        if q < a.len() {
            assert(a[p].0 != a[q].0);
        } else {
            assert(a[p].0 != entry.0);
        }
    }
    assert forall|key: K| has_key(b, key) == (has_key(a, key) || key == entry.0) by {
        if has_key(a, key) {
            let p = place_of(a, key);
            assert(b[p].0 == key);
        }
        if key == entry.0 {
            assert(b[a.len() as int].0 == key);
        }
        if has_key(b, key) {
            let p = place_of(b, key);
            if p < a.len() {
                assert(a[p].0 == key);
            }
        }
    }
    let target = as_map(a).insert(entry.0, entry.1);
    assert forall|key: K| has_key(b, key) implies as_map(b)[key] == target[key] by {
        let p = place_of(b, key);
        lemma_entry_in_map(b, p);
        if p < a.len() {
            assert(a[p].0 == key);
            lemma_entry_in_map(a, p);
        }
    }
    assert(as_map(b) =~= target);
}

/// Taking the entry at place `i` out takes its key out of the map.
pub proof fn lemma_remove_entry<K, V>(a: Seq<(K, V)>, i: int)
    requires
        distinct_keys(a),
        0 <= i < a.len(),
    ensures
        distinct_keys(a.remove(i)),
        as_map(a).contains_key(a[i].0),
        as_map(a.remove(i)) == as_map(a).remove(a[i].0),
{
    let b = a.remove(i);
    let gone = a[i].0;
    lemma_entry_in_map(a, i);
    assert forall|p: int| 0 <= p < b.len() implies #[trigger] b[p] == a[if p < i { p } else { p + 1 }] by {}
    assert forall|p: int, q: int| 0 <= p < q < b.len() implies (#[trigger] b[p]).0 != (
    #[trigger] b[q]).0 by {
        let place = if p < i { p } else { p + 1 };
        let other = if q < i { q } else { q + 1 };
        assert(a[place].0 != a[other].0);
    }
    assert forall|key: K| has_key(b, key) == (has_key(a, key) && key != gone) by {
        if has_key(a, key) && key != gone {
            let p = place_of(a, key);
            let place = if p < i { p } else { p - 1 };
            assert(b[place].0 == key);
        }
        if has_key(b, key) {
            let p = place_of(b, key);
            let place = if p < i { p } else { p + 1 };
            assert(a[place].0 == key);
            if place < i {
                assert(a[place].0 != a[i].0);
            } else {
                assert(a[i].0 != a[place].0);
            }
        }
    }
    let target = as_map(a).remove(gone);
    assert forall|key: K| has_key(b, key) implies as_map(b)[key] == target[key] by {
        let p = place_of(b, key);
        lemma_entry_in_map(b, p);
        let place = if p < i { p } else { p + 1 };
        assert(a[place].0 == key);
        lemma_entry_in_map(a, place);
    }
    assert(as_map(b) =~= target);
}

} // verus!
