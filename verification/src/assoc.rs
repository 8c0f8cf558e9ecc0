//! Sequences of key-value pairs read as mappings: the model shared by the
//! collections of this crate that store their entries in order.

use vstd::prelude::*;

verus! {

/// The mapping that a sequence of pairs denotes when each pair is inserted
/// in turn: of two pairs with one key, the later one stays.
pub open spec fn seq_map<K, V>(pairs: Seq<(K, V)>) -> Map<K, V>
    decreases pairs.len(),
{
    if pairs.len() == 0 {
        Map::empty()
    } else {
        seq_map(pairs.drop_last()).insert(pairs.last().0, pairs.last().1)
    }
}

/// No key stands at two places of the sequence.
pub open spec fn distinct_keys<K, V>(pairs: Seq<(K, V)>) -> bool {
    forall|i: int, j: int|
        0 <= i < j < pairs.len() ==> (#[trigger] pairs[i]).0 != (#[trigger] pairs[j]).0
}

/// A sequence without repeated keys keeps that property without its last
/// pair.
pub proof fn lemma_distinct_front<K, V>(pairs: Seq<(K, V)>)
    requires
        distinct_keys(pairs),
        pairs.len() > 0,
    ensures
        distinct_keys(pairs.drop_last()),
{
    let front = pairs.drop_last();
    assert forall|a: int, b: int| 0 <= a < b < front.len() implies (#[trigger] front[a]).0
        != (#[trigger] front[b]).0 by {
        assert(pairs[a].0 != pairs[b].0);
    }
}

/// A pair whose key does not occur yet can be put at the end.
pub proof fn lemma_distinct_push<K, V>(pairs: Seq<(K, V)>, pair: (K, V))
    requires
        distinct_keys(pairs),
        !seq_map(pairs).contains_key(pair.0),
    ensures
        distinct_keys(pairs.push(pair)),
        seq_map(pairs.push(pair)) == seq_map(pairs).insert(pair.0, pair.1),
{
    let grown = pairs.push(pair);
    assert(grown.drop_last() == pairs);
    lemma_seq_map_keys(pairs, pair.0);
    assert forall|a: int, b: int| 0 <= a < b < grown.len() implies (#[trigger] grown[a]).0
        != (#[trigger] grown[b]).0 by {
        if b < grown.len() - 1 {
            assert(pairs[a].0 != pairs[b].0);
        } else {
            assert(pairs[a].0 != pair.0);
        }
    }
}

/// The keys of `seq_map` are the keys that occur in the sequence.
pub proof fn lemma_seq_map_keys<K, V>(pairs: Seq<(K, V)>, key: K)
    ensures
        seq_map(pairs).contains_key(key) <==> exists|i: int|
            0 <= i < pairs.len() && (#[trigger] pairs[i]).0 == key,
    decreases pairs.len(),
{
    if pairs.len() > 0 {
        let front = pairs.drop_last();
        lemma_seq_map_keys(front, key);
        if seq_map(pairs).contains_key(key) {
            if pairs.last().0 == key {
                assert(pairs[pairs.len() - 1].0 == key);
            } else {
                let i = choose|i: int| 0 <= i < front.len() && (#[trigger] front[i]).0 == key;
                assert(pairs[i].0 == key);
            }
        }
        if exists|i: int| 0 <= i < pairs.len() && (#[trigger] pairs[i]).0 == key {
            let i = choose|i: int| 0 <= i < pairs.len() && (#[trigger] pairs[i]).0 == key;
            if i < pairs.len() - 1 {
                assert(front[i].0 == key);
            }
        }
    }
}

/// Where no key occurs twice, each pair's key is mapped to that pair's
/// value.
pub proof fn lemma_seq_map_value<K, V>(pairs: Seq<(K, V)>, i: int)
    requires
        distinct_keys(pairs),
        0 <= i < pairs.len(),
    ensures
        seq_map(pairs).contains_key(pairs[i].0),
        seq_map(pairs)[pairs[i].0] == pairs[i].1,
    decreases pairs.len(),
{
    let front = pairs.drop_last();
    if i < pairs.len() - 1 {
        lemma_distinct_front(pairs);
        lemma_seq_map_value(front, i);
        assert(front[i] == pairs[i]);
        assert(pairs[i].0 != pairs[pairs.len() - 1].0);
    }
}

/// Where no key occurs twice, the mapping has as many keys as the sequence
/// has pairs.
pub proof fn lemma_seq_map_len<K, V>(pairs: Seq<(K, V)>)
    requires
        distinct_keys(pairs),
    ensures
        seq_map(pairs).dom().finite(),
        seq_map(pairs).dom().len() == pairs.len(),
    decreases pairs.len(),
{
    if pairs.len() > 0 {
        let front = pairs.drop_last();
        lemma_distinct_front(pairs);
        lemma_seq_map_len(front);
        lemma_seq_map_keys(front, pairs.last().0);
        if seq_map(front).contains_key(pairs.last().0) {
            let i = choose|i: int| 0 <= i < front.len() && (#[trigger] front[i]).0 == pairs.last().0;
            assert(pairs[i].0 != pairs[pairs.len() - 1].0);
        }
        assert(seq_map(pairs).dom() =~= seq_map(front).dom().insert(pairs.last().0));
    }
}

/// Taking one pair out of a sequence without repeated keys takes its key
/// out of the mapping and leaves the rest as it was.
pub proof fn lemma_seq_map_remove<K, V>(pairs: Seq<(K, V)>, i: int)
    requires
        distinct_keys(pairs),
        0 <= i < pairs.len(),
    ensures
        distinct_keys(pairs.remove(i)),
        seq_map(pairs.remove(i)) == seq_map(pairs).remove(pairs[i].0),
{
    let rest = pairs.remove(i);
    assert(distinct_keys(rest)) by {
        assert forall|a: int, b: int| 0 <= a < b < rest.len() implies (#[trigger] rest[a]).0
            != (#[trigger] rest[b]).0 by {
            let a0 = if a < i { a } else { a + 1 };
            let b0 = if b < i { b } else { b + 1 };
            assert(pairs[a0].0 != pairs[b0].0);
        }
    }
    let left = seq_map(rest);
    let right = seq_map(pairs).remove(pairs[i].0);
    assert forall|k: K| left.contains_key(k) <==> right.contains_key(k) by {
        lemma_seq_map_keys(rest, k);
        lemma_seq_map_keys(pairs, k);
        if left.contains_key(k) {
            let a = choose|a: int| 0 <= a < rest.len() && (#[trigger] rest[a]).0 == k;
            let a0 = if a < i { a } else { a + 1 };
            assert(pairs[a0].0 == k);
            if a0 < i {
                assert(pairs[a0].0 != pairs[i].0);
            } else {
                assert(pairs[i].0 != pairs[a0].0);
            }
        }
        if right.contains_key(k) {
            let a0 = choose|a: int| 0 <= a < pairs.len() && (#[trigger] pairs[a]).0 == k;
            let a = if a0 < i { a0 } else { a0 - 1 };
            assert(rest[a].0 == k);
        }
    }
    assert forall|k: K| left.contains_key(k) implies left[k] == right[k] by {
        lemma_seq_map_keys(rest, k);
        let a = choose|a: int| 0 <= a < rest.len() && (#[trigger] rest[a]).0 == k;
        let a0 = if a < i { a } else { a + 1 };
        lemma_seq_map_value(rest, a);
        lemma_seq_map_value(pairs, a0);
    }
    assert(left =~= right);
}

/// Two sequences without repeated keys, of one length, denote one mapping
/// as soon as every pair of the first is found in the mapping of the
/// second.
pub proof fn lemma_same_pairs<K, V>(ours: Seq<(K, V)>, theirs: Seq<(K, V)>)
    requires
        distinct_keys(ours),
        distinct_keys(theirs),
        ours.len() == theirs.len(),
        forall|j: int|
            0 <= j < ours.len() ==> seq_map(theirs).contains_key((#[trigger] ours[j]).0) && seq_map(
                theirs,
            )[ours[j].0] == ours[j].1,
    ensures
        seq_map(ours) == seq_map(theirs),
{
    lemma_seq_map_len(ours);
    lemma_seq_map_len(theirs);
    let left = seq_map(ours);
    let right = seq_map(theirs);
    assert forall|k: K| #[trigger] left.dom().contains(k) implies right.dom().contains(k) by {
        lemma_seq_map_keys(ours, k);
        let j = choose|j: int| 0 <= j < ours.len() && (#[trigger] ours[j]).0 == k;
        assert(right.contains_key(ours[j].0));
    }
    assert(left.dom().subset_of(right.dom()));
    vstd::set_lib::lemma_subset_equality(left.dom(), right.dom());
    assert forall|k: K| left.contains_key(k) implies left[k] == right[k] by {
        lemma_seq_map_keys(ours, k);
        let j = choose|j: int| 0 <= j < ours.len() && (#[trigger] ours[j]).0 == k;
        lemma_seq_map_value(ours, j);
    }
    assert(left =~= right);
}

} // verus!
