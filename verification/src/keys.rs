//! Walking a `BTreeSet` of date keys in its order.

use std::collections::BTreeSet;
use vstd::prelude::*;
use vstd::std_specs::btree::{increasing_seq, spec_btree_keys_iter};
use vstd::std_specs::cmp::OrdSpec;
use vstd::std_specs::iter::IteratorSpec;

verus! {

/// The order of date keys: by year, then by month, then by day.
pub open spec fn key_before(a: (i32, u32, u32), b: (i32, u32, u32)) -> bool {
    a.0 < b.0 || (a.0 == b.0 && (a.1 < b.1 || (a.1 == b.1 && a.2 < b.2)))
}

/// In a sequence that the standard order makes increasing, an earlier
/// element compares as less than a later one.
proof fn lemma_increasing_pair<K: Ord>(items: Seq<K>, i: int, j: int)
    requires
        vstd::laws_cmp::obeys_cmp::<K>(),
        increasing_seq(items),
        0 <= i < j < items.len(),
    ensures
        items[i].cmp_spec(&items[j]) is Less,
{
    vstd::std_specs::btree::axiom_increasing_seq_meaning(items);
}

/// Puts a key into the set.
pub(crate) fn insert_key(set: &mut BTreeSet<(i32, u32, u32)>, key: (i32, u32, u32))
    ensures
        final(set)@ == old(set)@.insert(key),
{
    broadcast use vstd::laws_cmp::group_laws_cmp;

    set.insert(key);
}

/// The keys of the set, each once, in ascending order.
pub(crate) fn ascending_keys(set: &BTreeSet<(i32, u32, u32)>) -> (keys: Vec<(i32, u32, u32)>)
    ensures
        keys@.to_set() == set@,
        forall|i: int, j: int|
            0 <= i < j < keys@.len() ==> key_before(#[trigger] keys@[i], #[trigger] keys@[j]),
{
    broadcast use vstd::std_specs::btree::group_btree_axioms;
    broadcast use vstd::laws_cmp::group_laws_cmp;

    let mut keys: Vec<(i32, u32, u32)> = Vec::new();
    let ghost all = spec_btree_keys_iter(set).remaining();
    for key in walk: set.iter()
        invariant
            walk.seq() == all,
            keys@.len() == walk.index(),
            forall|j: int| 0 <= j < keys@.len() ==> keys@[j] == *all[j],
    {
        keys.push(*key);
    }
    proof {
        assert(keys@ =~= all.unref());
        assert forall|i: int, j: int| 0 <= i < j < keys@.len() implies key_before(
            #[trigger] keys@[i],
            #[trigger] keys@[j],
        ) by {
            lemma_increasing_pair::<&(i32, u32, u32)>(all, i, j);
        }
    }
    keys
}

} // verus!
