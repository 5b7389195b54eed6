//! Association lists: sequences of key-value pairs read as maps.
//!
//! The store keeps its tables as vectors of pairs in first-seen order. The
//! functions here say which map such a sequence stands for, and the lemmas
//! say how pushing a pair or replacing a value changes that map.

use vstd::prelude::*;

verus! {

/// Whether some pair of `pairs` has the key `key`.
pub open spec fn has_key<K, V>(pairs: Seq<(K, V)>, key: K) -> bool {
    exists|i: int| 0 <= i < pairs.len() && (#[trigger] pairs[i]).0 == key
}

/// The position of a pair with the key `key`, if there is one.
pub open spec fn position_of<K, V>(pairs: Seq<(K, V)>, key: K) -> int {
    choose|i: int| 0 <= i < pairs.len() && (#[trigger] pairs[i]).0 == key
}

/// Whether no key occurs twice.
pub open spec fn distinct_keys<K, V>(pairs: Seq<(K, V)>) -> bool {
    forall|i: int, j: int|
        0 <= i < j < pairs.len() ==> (#[trigger] pairs[i]).0 != (#[trigger] pairs[j]).0
}

/// The map that a sequence of pairs stands for.
pub open spec fn as_map<K, V>(pairs: Seq<(K, V)>) -> Map<K, V> {
    Map::new(|key: K| has_key(pairs, key), |key: K| pairs[position_of(pairs, key)].1)
}

/// With distinct keys, each pair is an entry of the map.
pub proof fn lemma_as_map_at<K, V>(pairs: Seq<(K, V)>, i: int)
    requires
        distinct_keys(pairs),
        0 <= i < pairs.len(),
    ensures
        as_map(pairs).contains_key(pairs[i].0),
        as_map(pairs)[pairs[i].0] == pairs[i].1,
        position_of(pairs, pairs[i].0) == i,
{
    let key = pairs[i].0;
    assert(has_key(pairs, key));
    let p = position_of(pairs, key);
    assert(pairs[p].0 == key);
    assert(p == i);
}

/// Pushing a pair with a new key inserts it into the map.
pub proof fn lemma_as_map_push<K, V>(pairs: Seq<(K, V)>, key: K, value: V)
    requires
        distinct_keys(pairs),
        !has_key(pairs, key),
    ensures
        distinct_keys(pairs.push((key, value))),
        as_map(pairs.push((key, value))) == as_map(pairs).insert(key, value),
{
    let longer = pairs.push((key, value));
    let last = pairs.len() as int;
    assert(longer[last] == (key, value));
    assert forall|i: int, j: int| 0 <= i < j < longer.len() implies (#[trigger] longer[i]).0 != (
    #[trigger] longer[j]).0 by {
        assert(longer[i] == pairs[i]);
        if j < last {
            assert(longer[j] == pairs[j]);
        }
    }
    assert forall|k: K| #[trigger]
        as_map(longer).contains_key(k) <==> as_map(pairs).insert(key, value).contains_key(k) by {
        if has_key(pairs, k) {
            let i = position_of(pairs, k);
            assert(longer[i] == pairs[i]);
        }
        if has_key(longer, k) && k != key {
            let i = position_of(longer, k);
            assert(longer[i] == pairs[i]);
        }
    }
    assert forall|k: K| #[trigger] as_map(longer).contains_key(k) implies as_map(longer)[k]
        == as_map(pairs).insert(key, value)[k] by {
        let i = position_of(longer, k);
        lemma_as_map_at(longer, i);
        if i < last {
            assert(longer[i] == pairs[i]);
            lemma_as_map_at(pairs, i);
        }
    }
    assert(as_map(longer) =~= as_map(pairs).insert(key, value));
}

/// Replacing the value at one position replaces it in the map.
pub proof fn lemma_as_map_update<K, V>(pairs: Seq<(K, V)>, i: int, value: V)
    requires
        distinct_keys(pairs),
        0 <= i < pairs.len(),
    ensures
        distinct_keys(pairs.update(i, (pairs[i].0, value))),
        as_map(pairs.update(i, (pairs[i].0, value))) == as_map(pairs).insert(pairs[i].0, value),
{
    let key = pairs[i].0;
    let changed = pairs.update(i, (key, value));
    assert forall|a: int, b: int| 0 <= a < b < changed.len() implies (#[trigger] changed[a]).0 != (
    #[trigger] changed[b]).0 by {
        assert(changed[a].0 == pairs[a].0);
        assert(changed[b].0 == pairs[b].0);
    }
    assert forall|k: K| #[trigger]
        as_map(changed).contains_key(k) <==> as_map(pairs).insert(key, value).contains_key(k) by {
        if has_key(pairs, k) {
            let p = position_of(pairs, k);
            assert(changed[p].0 == k);
        }
        if has_key(changed, k) {
            let p = position_of(changed, k);
            assert(pairs[p].0 == k);
        }
    }
    assert forall|k: K| #[trigger] as_map(changed).contains_key(k) implies as_map(changed)[k]
        == as_map(pairs).insert(key, value)[k] by {
        let p = position_of(changed, k);
        lemma_as_map_at(changed, p);
        assert(pairs[p].0 == k);
        lemma_as_map_at(pairs, p);
    }
    assert(as_map(changed) =~= as_map(pairs).insert(key, value));
}

/// Inserting a pair with a new key at any position inserts it into the map.
pub proof fn lemma_as_map_insert<K, V>(pairs: Seq<(K, V)>, at: int, key: K, value: V)
    requires
        distinct_keys(pairs),
        !has_key(pairs, key),
        0 <= at <= pairs.len(),
    ensures
        distinct_keys(pairs.insert(at, (key, value))),
        as_map(pairs.insert(at, (key, value))) == as_map(pairs).insert(key, value),
{
    let longer = pairs.insert(at, (key, value));
    // Where each pair of the longer sequence comes from.
    let origin = |i: int| if i < at { i } else { i - 1 };
    assert forall|i: int| 0 <= i < longer.len() && i != at implies #[trigger] longer[i]
        == pairs[origin(i)] by {}
    assert(longer[at] == (key, value));
    assert forall|i: int, j: int| 0 <= i < j < longer.len() implies (#[trigger] longer[i]).0 != (
    #[trigger] longer[j]).0 by {
        if i != at {
            assert(longer[i] == pairs[origin(i)]);
        }
        if j != at {
            assert(longer[j] == pairs[origin(j)]);
        }
    }
    assert forall|k: K| #[trigger]
        as_map(longer).contains_key(k) <==> as_map(pairs).insert(key, value).contains_key(k) by {
        if has_key(pairs, k) {
            let i = position_of(pairs, k);
            let moved = if i < at { i } else { i + 1 };
            assert(longer[moved] == pairs[i]);
        }
        if has_key(longer, k) && k != key {
            let i = position_of(longer, k);
            assert(longer[i] == pairs[origin(i)]);
        }
    }
    assert forall|k: K| #[trigger] as_map(longer).contains_key(k) implies as_map(longer)[k]
        == as_map(pairs).insert(key, value)[k] by {
        let i = position_of(longer, k);
        lemma_as_map_at(longer, i);
        if i != at {
            assert(longer[i] == pairs[origin(i)]);
            lemma_as_map_at(pairs, origin(i));
        }
    }
    assert(as_map(longer) =~= as_map(pairs).insert(key, value));
}

/// The empty sequence stands for the empty map.
pub proof fn lemma_as_map_empty<K, V>()
    ensures
        distinct_keys(Seq::<(K, V)>::empty()),
        as_map(Seq::<(K, V)>::empty()) == Map::<K, V>::empty(),
{
    assert(as_map(Seq::<(K, V)>::empty()) =~= Map::<K, V>::empty());
}

/// Whether `index` gives the position of every key of `pairs`, and of
/// nothing else.
pub open spec fn indexes<K, V>(index: Map<K, usize>, pairs: Seq<(K, V)>) -> bool {
    &&& forall|i: int|
        0 <= i < pairs.len() ==> index.contains_key((#[trigger] pairs[i]).0) && index[pairs[i].0]
            == i
    &&& forall|key: K| #[trigger]
        index.contains_key(key) ==> index[key] < pairs.len() && pairs[index[key] as int].0 == key
}

/// What is indexed has distinct keys, and the index knows exactly the keys
/// that occur.
pub proof fn lemma_indexed<K, V>(index: Map<K, usize>, pairs: Seq<(K, V)>)
    requires
        indexes(index, pairs),
    ensures
        distinct_keys(pairs),
        forall|key: K| index.contains_key(key) <==> has_key(pairs, key),
{
    assert forall|key: K| index.contains_key(key) <==> has_key(pairs, key) by {
        if index.contains_key(key) {
            assert(pairs[index[key] as int].0 == key);
        }
    }
}

/// Pushing a pair with a new key, and giving the key its position, keeps
/// the index right.
pub proof fn lemma_indexes_push<K, V>(index: Map<K, usize>, pairs: Seq<(K, V)>, key: K, value: V)
    requires
        indexes(index, pairs),
        !index.contains_key(key),
        pairs.len() <= usize::MAX,
    ensures
        indexes(index.insert(key, pairs.len() as usize), pairs.push((key, value))),
{
    let longer = pairs.push((key, value));
    let grown = index.insert(key, pairs.len() as usize);
    assert forall|i: int| 0 <= i < longer.len() implies grown.contains_key((#[trigger] longer[i]).0)
        && grown[longer[i].0] == i by {
        if i < pairs.len() {
            assert(longer[i] == pairs[i]);
        }
    }
    assert forall|k: K| #[trigger] grown.contains_key(k) implies grown[k] < longer.len()
        && longer[grown[k] as int].0 == k by {
        if k != key {
            assert(longer[index[k] as int] == pairs[index[k] as int]);
        }
    }
}

/// Replacing a value leaves the index right.
pub proof fn lemma_indexes_update<K, V>(index: Map<K, usize>, pairs: Seq<(K, V)>, i: int, value: V)
    requires
        indexes(index, pairs),
        0 <= i < pairs.len(),
    ensures
        indexes(index, pairs.update(i, (pairs[i].0, value))),
{
    let changed = pairs.update(i, (pairs[i].0, value));
    assert forall|j: int| 0 <= j < changed.len() implies index.contains_key(
        (#[trigger] changed[j]).0,
    ) && index[changed[j].0] == j by {
        assert(changed[j].0 == pairs[j].0);
    }
    assert forall|k: K| #[trigger] index.contains_key(k) implies index[k] < changed.len()
        && changed[index[k] as int].0 == k by {
        assert(changed[index[k] as int].0 == pairs[index[k] as int].0);
    }
}

} // verus!
