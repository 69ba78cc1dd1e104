//! What the router needs to know of the wire format: the kinds of datagram
//! that decoding tells apart, and the ways in which encoding fails.

use vstd::prelude::*;

verus! {

/// A decoded datagram, as far as routing is concerned.
#[derive(Clone, Copy, Eq, PartialEq)]
pub enum Packet<'a> {
    /// A connectionless datagram with its payload.
    Connless(&'a [u8]),
    /// The control packet that asks for a new connection.
    Connect,
    /// Any other packet that belongs to a connection.
    Connected,
}

/// Why a packet could not be encoded.
#[derive(Clone, Copy, Debug, Eq, PartialEq)]
pub enum Error {
    /// The output buffer is too small for the packet.
    Capacity,
    /// The payload exceeds what one datagram can carry.
    TooLongData,
}

} // verus!
