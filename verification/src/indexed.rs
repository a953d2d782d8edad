//! Indexed arrays: maps from indices to strings.

use std::collections::BTreeMap;

use vstd::prelude::*;

use crate::effective;

verus! {

/// What an indexed array holds.
pub open spec fn array_texts(values: Map<u64, String>) -> Map<u64, Seq<char>> {
    values.map_values(|s: String| s@)
}

/// Entries with their strings as texts.
pub open spec fn entry_texts(entries: Seq<(u64, String)>) -> Seq<(u64, Seq<char>)> {
    entries.map_values(|e: (u64, String)| (e.0, e.1@))
}

/// The entries of an indexed array, by increasing index.
pub fn in_order(values: &BTreeMap<u64, String>) -> (r: Vec<(u64, String)>)
    ensures
        entry_texts(r@) == effective::listing(array_texts(values@)),
{
    let mut r: Vec<(u64, String)> = Vec::new();
    let iter = values.iter();
    let ghost all = vstd::std_specs::iter::IteratorSpec::remaining(&iter);
    for (k, v) in it: iter
        invariant
            it.seq() == all,
            r@.len() == it.index(),
            forall|i: int|
                0 <= i < it.index() ==> (#[trigger] r@[i]).0 == *all[i].0 && r@[i].1 == *all[i].1,
    {
        r.push((*k, v.clone()));
    }
    proof {
        let entries = entry_texts(r@);
        let m = array_texts(values@);
        let keys = all.map_values(|kv: (&u64, &String)| *kv.0);
        broadcast use vstd::laws_cmp::group_laws_cmp;

        assert(vstd::std_specs::btree::increasing_seq(keys));
        assert forall|i: int, j: int| 0 <= i < j < entries.len() implies (#[trigger] entries[i]).0
            < (#[trigger] entries[j]).0 by {
            assert(vstd::std_specs::cmp::OrdSpec::cmp_spec(&keys[i], &keys[j]) is Less);
        }
        assert forall|i: int| 0 <= i < entries.len() implies m.contains_key(
            (#[trigger] entries[i]).0,
        ) && m[entries[i].0] == entries[i].1 by {
            assert(values@.contains_key(*all[i].0));
        }
        assert forall|k: u64| #[trigger] m.contains_key(k) implies exists|i: int|
            0 <= i < entries.len() && (#[trigger] entries[i]).0 == k by {
            assert(all.contains((&k, &values@[k])));
            let i = choose|i: int| 0 <= i < all.len() && #[trigger] all[i] == (&k, &values@[k]);
            assert(entries[i].0 == k);
        }
        effective::listing_is_unique(entries, m);
    }
    r
}

} // verus!
