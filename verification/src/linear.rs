//! The registry's index: a `linear_map::LinearMap` from raw peer identifiers
//! to slot positions, with the contracts this crate relies on.

use linear_map::LinearMap;
use vstd::prelude::*;

verus! {

/// `linear_map::LinearMap`: a map that searches its entries one by one. What
/// it holds is known through `index_entries` only.
#[verifier::external_type_specification]
#[verifier::external_body]
#[verifier::reject_recursive_types(K)]
#[verifier::reject_recursive_types(V)]
pub struct ExLinearMap<K, V>(LinearMap<K, V>);

/// The key-value pairs held by an index.
pub uninterp spec fn index_entries(m: LinearMap<u32, usize>) -> Map<u32, usize>;

/// `LinearMap::new`: a map without entries.
#[verifier::external_body]
pub(crate) fn index_new() -> (created: LinearMap<u32, usize>)
    ensures
        index_entries(created).dom() == Set::<u32>::empty(),
{
    LinearMap::new()
}

/// `LinearMap::get`: the value stored under `key`, if any.
#[verifier::external_body]
pub(crate) fn index_get(m: &LinearMap<u32, usize>, key: u32) -> (slot: Option<usize>)
    ensures
        slot == (if index_entries(*m).contains_key(key) {
            Some(index_entries(*m)[key])
        } else {
            None
        }),
{
    m.get(&key).copied()
}

/// `LinearMap::insert`: stores `value` under `key`, replacing and returning
/// any value previously stored under it.
#[verifier::external_body]
pub(crate) fn index_insert(m: &mut LinearMap<u32, usize>, key: u32, value: usize) -> (previous: Option<usize>)
    ensures
        index_entries(*final(m)) == index_entries(*old(m)).insert(key, value),
        previous == (if index_entries(*old(m)).contains_key(key) {
            Some(index_entries(*old(m))[key])
        } else {
            None
        }),
{
    m.insert(key, value)
}

/// `LinearMap::remove`: deletes the entry under `key` and returns its value,
/// if there was one.
#[verifier::external_body]
pub(crate) fn index_remove(m: &mut LinearMap<u32, usize>, key: u32) -> (previous: Option<usize>)
    ensures
        index_entries(*final(m)) == index_entries(*old(m)).remove(key),
        previous == (if index_entries(*old(m)).contains_key(key) {
            Some(index_entries(*old(m))[key])
        } else {
            None
        }),
{
    m.remove(&key)
}

} // verus!
