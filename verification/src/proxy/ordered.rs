//! Keys of ordered maps.

use std::collections::BTreeMap;
use vstd::laws_cmp::group_laws_cmp;
use vstd::prelude::*;
use vstd::std_specs::cmp::OrdSpec;
use vstd::std_specs::iter::IteratorSpec;
use vstd::std_specs::btree::{group_btree_axioms, increasing_seq};

verus! {

broadcast use {group_btree_axioms, group_laws_cmp};

proof fn lemma_increasing(keys: Seq<i64>)
    requires
        increasing_seq(keys),
    ensures
        forall|i: int, j: int| 0 <= i < j < keys.len() ==> keys[i] < keys[j],
{
    assert forall|i: int, j: int| 0 <= i < j < keys.len() implies keys[i] < keys[j] by {
        assert(keys[i].cmp_spec(&keys[j]) is Less);
    }
}

/// The keys of a map in ascending order.
pub(crate) fn ordered_keys<V>(m: &BTreeMap<i64, V>) -> (r: Vec<i64>)
    ensures
        forall|i: int, j: int| 0 <= i < j < r@.len() ==> r@[i] < r@[j],
        forall|k: i64| m@.contains_key(k) <==> r@.contains(k),
{
    let mut r: Vec<i64> = Vec::new();
    let ghost all = m.iter().remaining();
    let ghost keys = all.map_values(|kv: (&i64, &V)| *kv.0);
    for kv in it: m.iter()
        invariant
            it.seq() == all,
            keys == all.map_values(|kv: (&i64, &V)| *kv.0),
            r@ == keys.take(it.index() as int),
            increasing_seq(keys),
            forall|i: int| 0 <= i < all.len() ==> m@.contains_key(*(#[trigger] all[i]).0),
            forall|k: i64| #[trigger] m@.contains_key(k) ==> all.contains((&k, &m@[k])),
    {
        r.push(*kv.0);
        proof {
            assert(r@ =~= keys.take(it.index() as int + 1));
        }
    }
    proof {
        assert(r@ =~= keys);
        lemma_increasing(keys);
        assert forall|k: i64| m@.contains_key(k) <==> r@.contains(k) by {
            if m@.contains_key(k) {
                let i = all.index_of((&k, &m@[k]));
                assert(keys[i] == k);
            }
            if r@.contains(k) {
                let i = keys.index_of(k);
                assert(m@.contains_key(*all[i].0));
            }
        }
    }
    r
}

} // verus!
