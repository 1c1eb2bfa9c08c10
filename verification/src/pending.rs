//! Sums over the table of pending deltas.
//!
//! The counter engine keeps every delta that a client handed in and that the
//! store has not confirmed yet in a map from the id of the store request to
//! the delta. The value the node reports is the last confirmed value plus the
//! sum of that map, so the sum is defined here once, with the few facts about
//! it that the engine and its laws rest on.
use std::collections::HashMap;
use vstd::prelude::*;
use vstd::std_specs::hash::spec_hash_map_iter;
use vstd::std_specs::iter::IteratorSpec;

verus! {

broadcast use vstd::std_specs::hash::group_hash_axioms;

/// The sum of the values of a finite map (0 for a map that is not finite).
pub open spec fn pending_sum(m: Map<u32, u32>) -> nat
    decreases m.dom().len(),
    when m.dom().finite()
{
    if m.dom().len() == 0 {
        0
    } else {
        let k = m.dom().choose();
        m[k] as nat + pending_sum(m.remove(k))
    }
}

/// Any entry can be split off the sum, not only the one `choose` picks.
pub proof fn lemma_sum_remove(m: Map<u32, u32>, k: u32)
    requires
        m.dom().finite(),
        m.contains_key(k),
    ensures
        pending_sum(m) == m[k] as nat + pending_sum(m.remove(k)),
    decreases m.dom().len(),
{
    let c = m.dom().choose();
    if c != k {
        lemma_sum_remove(m.remove(c), k);
        lemma_sum_remove(m.remove(k), c);
        assert(m.remove(c).remove(k) =~= m.remove(k).remove(c));
    }
}

/// A new entry adds its value to the sum.
pub proof fn lemma_sum_insert(m: Map<u32, u32>, k: u32, v: u32)
    requires
        m.dom().finite(),
        !m.contains_key(k),
    ensures
        pending_sum(m.insert(k, v)) == pending_sum(m) + v,
{
    lemma_sum_remove(m.insert(k, v), k);
    assert(m.insert(k, v).remove(k) =~= m);
}

/// A map of one entry sums to that entry.
pub proof fn lemma_sum_singleton(k: u32, v: u32)
    ensures
        pending_sum(Map::<u32, u32>::empty().insert(k, v)) == v,
{
    lemma_sum_insert(Map::<u32, u32>::empty(), k, v);
}

/// Adds up the pending deltas. `None` says that the sum does not fit.
pub fn sum_deltas(deltas: &HashMap<u32, u32>) -> (total: Option<u32>)
    ensures
        match total {
            Some(t) => t == pending_sum(deltas@),
            None => pending_sum(deltas@) > u32::MAX,
        },
{
    let mut acc: u32 = 0;
    let ghost rest: Map<u32, u32> = deltas@;
    let ghost all = spec_hash_map_iter(deltas).remaining();
    for entry in it: deltas.iter()
        invariant
            it.seq() == all,
            all.no_duplicates(),
            rest.dom().finite(),
            rest.submap_of(deltas@),
            forall|j: int|
                it.index() <= j < all.len() ==> rest.contains_key(*(#[trigger] all[j]).0),
            forall|k: u32|
                rest.contains_key(k) ==> exists|j: int|
                    it.index() <= j < all.len() && *(#[trigger] all[j]).0 == k,
            acc + pending_sum(rest) == pending_sum(deltas@),
    {
        let (id, delta) = entry;
        proof {
            let i = it.index();
            assert(deltas@.contains_key(*all[i].0) && deltas@[*all[i].0] == *all[i].1);
            lemma_sum_remove(rest, *id);
            assert forall|j: int| i + 1 <= j < all.len() implies rest.remove(*id).contains_key(
                *(#[trigger] all[j]).0,
            ) by {}
            rest = rest.remove(*id);
        }
        match acc.checked_add(*delta) {
            Some(next) => {
                acc = next;
            },
            None => {
                return None;
            },
        }
    }
    proof {
        assert(rest.dom() =~= Set::<u32>::empty());
    }
    Some(acc)
}

} // verus!
