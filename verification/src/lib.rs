//! Peer registry and datagram routing for a connection-oriented layer on top
//! of an unreliable datagram transport.
//!
//! The library decides and the caller acts. [`Net`] keeps the peers, says to
//! which of them an incoming datagram belongs and which way an outgoing chunk
//! takes, and turns what a connection observed into the events that the
//! application sees. The caller owns the socket, the wire codec and the
//! behaviour of the connection state machines, whose states the registry
//! stores for it: it runs them as the router says and hands their results
//! back.
//!
//! Apart from this, [`tiles`] tells which of the named special tiles occur in
//! a map's game layer.

pub mod address;
pub mod chunk;
pub mod connection;
pub mod linear;
pub mod msgpack;
pub mod net;
pub mod peer_id;
pub mod peers;
pub mod protocol;
pub mod receive;
pub mod tiles;

pub use address::Address;
pub use chunk::{Chunk, ChunkAddress, ChunkOrEvent, ChunkType, Id};
pub use connection::Error;
pub use net::{Callback, Net};
pub use peer_id::PeerId;
pub use receive::ReceivePacket;
