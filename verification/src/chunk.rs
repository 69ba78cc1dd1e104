//! What travels between the application and the network layer: chunks of
//! payload and the events that accompany them.

use crate::address::Address;
use crate::peer_id::PeerId;
use vstd::prelude::*;

verus! {

/// Either a registered peer or a bare address.
#[derive(Clone, Copy)]
pub enum Id<A: Address> {
    Peer(PeerId),
    Address(A),
}

/// One item of what a fed datagram gave rise to.
#[derive(Clone, Copy, Eq, PartialEq)]
pub enum ChunkOrEvent<'a, A: Address> {
    Chunk(Chunk<'a, A>),
    Connect(PeerId),
    Disconnect(PeerId, &'a [u8]),
}

/// How a chunk travels to or from a peer.
#[derive(Clone, Copy, Eq, PartialEq)]
pub enum ChunkType {
    Connless,
    Connected,
    Vital,
}

/// A payload and whom it is for, or whom it came from.
#[derive(Clone, Copy, Eq, PartialEq)]
pub struct Chunk<'a, A: Address> {
    pub data: &'a [u8],
    pub addr: ChunkAddress<A>,
}

/// The other end of a chunk.
#[derive(Clone, Copy, Eq, PartialEq)]
pub enum ChunkAddress<A: Address> {
    /// An address outside any connection; on the way in, one without a peer.
    NonPeerConnless(A),
    /// A registered peer and the kind of delivery.
    Peer(PeerId, ChunkType),
}

} // verus!
