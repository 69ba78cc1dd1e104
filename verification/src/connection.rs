//! The face that a per-peer connection state machine shows to the router:
//! what it reports from a datagram, where it sends, and how sending fails.

use vstd::prelude::*;

verus! {

/// One observation that a connection makes while consuming a datagram.
#[derive(Clone, Copy, Eq, PartialEq)]
pub enum ReceiveChunk<'a> {
    /// A connectionless payload from the peer.
    Connless(&'a [u8]),
    /// A payload within the connection; the flag tells whether it is vital.
    Connected(&'a [u8], bool),
    /// The peer closed the connection, giving this reason.
    Disconnect(&'a [u8]),
}

/// Why a send did not go through.
#[derive(Clone, Copy, Debug, Eq, PartialEq)]
pub enum Error<E> {
    /// The payload exceeds what one datagram can carry.
    TooLongData,
    /// The send callback failed.
    Callback(E),
}

/// Where a connection sends its datagrams: one fixed remote endpoint.
pub trait Callback {
    type Error;

    /// Relates the callback before a call of `send` with `data` to the
    /// callback after it and to what the call returned. An implementation
    /// that says nothing of itself keeps this relation, which admits every
    /// outcome.
    open spec fn sends(&self, data: Seq<u8>, after: &Self, outcome: Result<(), Self::Error>) -> bool {
        true
    }

    fn send(&mut self, data: &[u8]) -> (outcome: Result<(), Self::Error>)
        ensures
            old(self).sends(data@, final(self), outcome),
    ;
}

} // verus!
