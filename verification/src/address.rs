//! Addresses of remote endpoints.

use vstd::prelude::*;

verus! {

/// Identifier of a remote endpoint: copied freely, compared, hashed and
/// ordered by value.
pub trait Address: Copy + Eq + std::hash::Hash + Ord {

}

impl<A: Copy + Eq + std::hash::Hash + Ord> Address for A {

}

/// Holds when `==` on `A` is equality of values, which is what the registry
/// needs in order to find a peer by its address.
pub open spec fn compares_by_value<A: Address>() -> bool {
    vstd::laws_eq::obeys_concrete_eq::<A>()
}

} // verus!
