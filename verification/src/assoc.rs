//! Association lists as maps: the map that a sequence of key-value pairs
//! stands for when a later pair replaces an earlier one with the same key.

use vstd::prelude::*;

verus! {

/// The map that `pairs` stands for: the pairs are inserted in order, so the
/// last pair with a given key decides its value.
pub open spec fn assoc_map<K, V>(pairs: Seq<(K, V)>) -> Map<K, V>
    decreases pairs.len(),
{
    if pairs.len() == 0 {
        Map::empty()
    } else {
        assoc_map(pairs.drop_last()).insert(pairs.last().0, pairs.last().1)
    }
}

/// No key stands twice in `pairs`.
pub open spec fn distinct_keys<K, V>(pairs: Seq<(K, V)>) -> bool {
    forall|i: int, j: int| 0 <= i < j < pairs.len() ==> pairs[i].0 != pairs[j].0
}

/// `key` is the key of some pair of `pairs`.
pub open spec fn has_key<K, V>(pairs: Seq<(K, V)>, key: K) -> bool {
    exists|i: int| 0 <= i < pairs.len() && pairs[i].0 == key
}

/// Appending a pair inserts it into the map.
pub proof fn lemma_assoc_map_push<K, V>(pairs: Seq<(K, V)>, key: K, value: V)
    ensures
        assoc_map(pairs.push((key, value))) == assoc_map(pairs).insert(key, value),
{
    assert(pairs.push((key, value)).drop_last() =~= pairs);
}

/// The map of a sequence of pairs is finite and holds exactly the keys of
/// the pairs.
pub proof fn lemma_assoc_map_dom<K, V>(pairs: Seq<(K, V)>)
    ensures
        assoc_map(pairs).dom().finite(),
        forall|key: K| #[trigger] assoc_map(pairs).contains_key(key) <==> has_key(pairs, key),
    decreases pairs.len(),
{
    if pairs.len() > 0 {
        let front = pairs.drop_last();
        lemma_assoc_map_dom(front);
        assert forall|key: K| #[trigger]
            assoc_map(pairs).contains_key(key) <==> has_key(pairs, key) by {
            if has_key(pairs, key) {
                let i = choose|i: int| 0 <= i < pairs.len() && pairs[i].0 == key;
                if i < front.len() {
                    assert(front[i].0 == key);
                    assert(has_key(front, key));
                }
            }
            if assoc_map(pairs).contains_key(key) {
                if key == pairs.last().0 {
                    assert(pairs[pairs.len() - 1].0 == key);
                } else {
                    assert(has_key(front, key));
                    let i = choose|i: int| 0 <= i < front.len() && front[i].0 == key;
                    assert(pairs[i].0 == key);
                }
            }
        }
    } else {
        assert forall|key: K| #[trigger]
            assoc_map(pairs).contains_key(key) <==> has_key(pairs, key) by {}
    }
}

/// The value of a key is that of the last pair with this key.
pub proof fn lemma_assoc_map_last_wins<K, V>(pairs: Seq<(K, V)>, at: int)
    requires
        0 <= at < pairs.len(),
        forall|later: int| at < later < pairs.len() ==> pairs[later].0 != pairs[at].0,
    ensures
        assoc_map(pairs).contains_key(pairs[at].0),
        assoc_map(pairs)[pairs[at].0] == pairs[at].1,
    decreases pairs.len(),
{
    if at < pairs.len() - 1 {
        let front = pairs.drop_last();
        assert(front[at] == pairs[at]);
        assert(pairs.last() == pairs[pairs.len() - 1]);
        lemma_assoc_map_last_wins(front, at);
    }
}

/// Where no key stands twice, each pair gives the value of its key.
pub proof fn lemma_assoc_map_value<K, V>(pairs: Seq<(K, V)>, at: int)
    requires
        distinct_keys(pairs),
        0 <= at < pairs.len(),
    ensures
        assoc_map(pairs).contains_key(pairs[at].0),
        assoc_map(pairs)[pairs[at].0] == pairs[at].1,
{
    lemma_assoc_map_last_wins(pairs, at);
}

/// Where no key stands twice, the map has as many keys as there are pairs.
pub proof fn lemma_assoc_map_len<K, V>(pairs: Seq<(K, V)>)
    requires
        distinct_keys(pairs),
    ensures
        assoc_map(pairs).dom().finite(),
        assoc_map(pairs).dom().len() == pairs.len(),
    decreases pairs.len(),
{
    lemma_assoc_map_dom(pairs);
    if pairs.len() > 0 {
        let front = pairs.drop_last();
        lemma_assoc_map_len(front);
        lemma_assoc_map_dom(front);
        if has_key(front, pairs.last().0) {
            let i = choose|i: int| 0 <= i < front.len() && front[i].0 == pairs.last().0;
            assert(pairs[i].0 == pairs[pairs.len() - 1].0);
        }
        assert(!assoc_map(front).contains_key(pairs.last().0));
    }
}

/// Where no key stands twice, replacing the value of one pair replaces the
/// value of its key in the map.
pub proof fn lemma_assoc_map_update<K, V>(pairs: Seq<(K, V)>, at: int, value: V)
    requires
        distinct_keys(pairs),
        0 <= at < pairs.len(),
    ensures
        distinct_keys(pairs.update(at, (pairs[at].0, value))),
        assoc_map(pairs.update(at, (pairs[at].0, value))) == assoc_map(pairs).insert(
            pairs[at].0,
            value,
        ),
    decreases pairs.len(),
{
    let key = pairs[at].0;
    let changed = pairs.update(at, (key, value));
    let front = pairs.drop_last();
    if at == pairs.len() - 1 {
        assert(changed.drop_last() =~= front);
        assert(assoc_map(changed) =~= assoc_map(pairs).insert(key, value));
    } else {
        assert(front[at] == pairs[at]);
        lemma_assoc_map_update(front, at, value);
        assert(changed.drop_last() =~= front.update(at, (key, value)));
        assert(changed.last() == pairs.last());
        assert(pairs[pairs.len() - 1].0 != pairs[at].0);
        assert(assoc_map(changed) =~= assoc_map(pairs).insert(key, value));
    }
}

} // verus!
