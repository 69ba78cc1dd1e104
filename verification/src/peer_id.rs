//! Peer identifiers: a 32-bit counter that wraps around.

use vstd::prelude::*;

verus! {

/// Stable handle of a peer entry in the registry.
#[derive(Clone, Copy, Debug, Eq, Hash, Ord, PartialEq, PartialOrd, Structural)]
pub struct PeerId(pub u32);

/// The identifier that follows `id` in allocation order, wrapping from
/// `u32::MAX` to zero.
pub open spec fn successor(id: PeerId) -> PeerId {
    PeerId(if id.0 == u32::MAX { 0u32 } else { (id.0 + 1) as u32 })
}

impl PeerId {
    /// Returns the current identifier and advances `self` to its successor.
    pub fn get_and_increment(&mut self) -> (previous: PeerId)
        ensures
            previous == *old(self),
            *final(self) == successor(*old(self)),
    {
        let previous = *self;
        self.0 = self.0.wrapping_add(1);
        previous
    }
}

} // verus!
