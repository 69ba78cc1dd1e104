//! The router: which peer a datagram belongs to, what a datagram from a
//! stranger leads to, and which way an outgoing chunk takes.

use crate::address::{compares_by_value, Address};
use crate::chunk::{Chunk, ChunkAddress, ChunkOrEvent, ChunkType};
use crate::connection;
use crate::connection::Error;
use crate::peer_id::{successor, PeerId};
use crate::peers::{
    addr_of, distinct_addresses, first_vacant, fresh, has_vacancy, keeps_addresses, pid_at, Peer, Peers,
};
use crate::protocol;
use crate::protocol::Packet;
use crate::receive::ReceivePacket;
use vstd::prelude::*;

verus! {

/// Where the network layer sends its datagrams: any remote endpoint, named
/// with each call.
pub trait Callback<A: Address> {
    type Error;

    /// Relates the callback before a call of `send` with `addr` and `data`
    /// to the callback after it and to what the call returned. An
    /// implementation that says nothing of itself keeps this relation, which
    /// admits every outcome.
    open spec fn sends(
        &self,
        addr: A,
        data: Seq<u8>,
        after: &Self,
        outcome: Result<(), Self::Error>,
    ) -> bool {
        true
    }

    fn send(&mut self, addr: A, data: &[u8]) -> (outcome: Result<(), Self::Error>)
        ensures
            old(self).sends(addr, data@, final(self), outcome),
    ;
}

/// A send callback bound to one remote endpoint, for a connection to send
/// through.
pub struct ConnectionCallback<'a, A: Address, CB: Callback<A>> {
    pub cb: &'a mut CB,
    pub addr: A,
}

/// Binds `cb` to the remote endpoint `addr`.
pub fn cc<'a, A: Address, CB: Callback<A>>(cb: &'a mut CB, addr: A) -> (bound: ConnectionCallback<
    'a,
    A,
    CB,
>)
    ensures
        bound.addr == addr,
        *bound.cb == *old(cb),
        *final(bound.cb) == *final(cb),
{
    ConnectionCallback { cb, addr }
}

impl<'a, A: Address, CB: Callback<A>> connection::Callback for ConnectionCallback<'a, A, CB> {
    type Error = CB::Error;

    /// One send through the binding is one send of the same data through
    /// the callback, to the bound address, with the same outcome.
    open spec fn sends(&self, data: Seq<u8>, after: &Self, outcome: Result<(), CB::Error>) -> bool {
        self.cb.sends(self.addr, data, &*after.cb, outcome) && after.addr == self.addr
    }

    fn send(&mut self, data: &[u8]) -> (outcome: Result<(), CB::Error>) {
        self.cb.send(self.addr, data)
    }
}

/// The way an outgoing chunk takes.
#[derive(Clone, Copy, Eq, PartialEq)]
pub enum Route<'a, A: Address> {
    /// Encode the payload as a connectionless packet and send it to `addr`
    /// directly.
    Connless { addr: A, data: &'a [u8] },
    /// Hand the payload to the connection of the peer `pid`, at `addr`, as a
    /// connectionless chunk.
    PeerConnless { pid: PeerId, addr: A, data: &'a [u8] },
    /// Hand the payload to the connection of the peer `pid`, at `addr`, for
    /// delivery within the connection, reliably if `vital`.
    PeerConnected { pid: PeerId, addr: A, data: &'a [u8], vital: bool },
}

/// The way that `chunk` takes, given the live peers.
pub open spec fn route_of<'a, A: Address, C>(peers: Map<PeerId, Peer<A, C>>, chunk: Chunk<'a, A>) -> Route<
    'a,
    A,
> {
    match chunk.addr {
        ChunkAddress::NonPeerConnless(addr) => match pid_at(peers, addr) {
            Some(pid) => Route::PeerConnless { pid, addr, data: chunk.data },
            None => Route::Connless { addr, data: chunk.data },
        },
        ChunkAddress::Peer(pid, ChunkType::Connless) => Route::PeerConnless {
            pid,
            addr: peers[pid].addr,
            data: chunk.data,
        },
        ChunkAddress::Peer(pid, ChunkType::Connected) => Route::PeerConnected {
            pid,
            addr: peers[pid].addr,
            data: chunk.data,
            vital: false,
        },
        ChunkAddress::Peer(pid, ChunkType::Vital) => Route::PeerConnected {
            pid,
            addr: peers[pid].addr,
            data: chunk.data,
            vital: true,
        },
    }
}

/// The peers of one local endpoint, and the decisions of its router. The
/// connection states `C` are kept for the caller, who drives them.
pub struct Net<A: Address, C> {
    peers: Peers<A, C>,
}

impl<A: Address, C> Net<A, C> {
    /// The live peers by identifier.
    pub closed spec fn view(&self) -> Map<PeerId, Peer<A, C>> {
        self.peers@
    }

    /// The identifier at which the next allocation starts probing.
    pub closed spec fn next_peer_id(&self) -> PeerId {
        self.peers.next_peer_id()
    }

    /// The registry is consistent, and no two peers share an address.
    pub closed spec fn wf(&self) -> bool {
        self.peers.wf()
    }

    /// A network layer without peers.
    pub fn new() -> (net: Net<A, C>)
        ensures
            net.wf(),
            net@ == Map::<PeerId, Peer<A, C>>::empty(),
            net.next_peer_id() == PeerId(0),
    {
        Net { peers: Peers::new() }
    }

    /// No two live peers share an address.
    pub proof fn lemma_distinct_addresses(&self)
        requires
            self.wf(),
        ensures
            distinct_addresses(self@),
    {
        self.peers.lemma_distinct_addresses();
    }

    /// Whether every identifier is in use, so that no peer can be added.
    pub fn is_full(&self) -> (full: bool)
        requires
            self.wf(),
        ensures
            full == !has_vacancy(self@),
    {
        self.peers.is_full()
    }

    /// Registers a peer at `addr` and hands out its identifier and its fresh
    /// connection, on which the caller starts the handshake.
    pub fn connect(&mut self, addr: A) -> (opened: (PeerId, &mut C)) where C: Default
        requires
            old(self).wf(),
            has_vacancy(old(self)@),
            pid_at(old(self)@, addr) is None,
        ensures
            first_vacant(old(self)@.dom(), old(self).next_peer_id(), opened.0),
            fresh(*opened.1),
            final(self).wf(),
            final(self).next_peer_id() == successor(opened.0),
            final(self)@ == old(self)@.insert(opened.0, Peer { conn: *final(opened.1), addr }),
            addr_of(final(self)@, opened.0) == Some(addr),
            pid_at(final(self)@, addr) == Some(opened.0),
            keeps_addresses(old(self)@, final(self)@),
    {
        self.peers.new_peer(addr)
    }

    /// Hands out the address and the connection of the live peer `pid`, on
    /// which the caller sends the disconnect. The peer stays registered, so
    /// that its identifier is not handed out again.
    pub fn disconnect(&mut self, pid: PeerId) -> (closing: (A, &mut C))
        requires
            old(self).wf(),
            old(self)@.contains_key(pid),
        ensures
            closing.0 == old(self)@[pid].addr,
            *closing.1 == old(self)@[pid].conn,
            final(self).wf(),
            final(self).next_peer_id() == old(self).next_peer_id(),
            final(self)@ == old(self)@.insert(pid, Peer { conn: *final(closing.1), addr: closing.0 }),
            keeps_addresses(old(self)@, final(self)@),
    {
        let addr = self.peers.index(pid).addr;
        (addr, self.peers.index_mut(pid))
    }

    /// Sends the connectionless packet that the codec made, `written`, to
    /// `addr` through `cb`; where the codec found the payload too long,
    /// reports that and sends nothing.
    pub fn send_connless<CB: Callback<A>>(
        &self,
        cb: &mut CB,
        addr: A,
        written: Result<&[u8], protocol::Error>,
    ) -> (sent: Result<(), Error<CB::Error>>)
        requires
            written != Err::<&[u8], protocol::Error>(protocol::Error::Capacity),
        ensures
            match written {
                Ok(datagram) => match sent {
                    Ok(()) => old(cb).sends(addr, datagram@, final(cb), Ok(())),
                    Err(Error::Callback(e)) => old(cb).sends(addr, datagram@, final(cb), Err(e)),
                    Err(Error::TooLongData) => false,
                },
                Err(_) => sent == Err::<(), Error<CB::Error>>(Error::TooLongData) && *final(cb) == *old(
                    cb,
                ),
            },
    {
        match written {
            Ok(datagram) => {
                let outcome = cb.send(addr, datagram);
                match outcome {
                    Ok(done) => {
                        assert(done == ());
                        Ok(())
                    },
                    Err(e) => Err(Error::Callback(e)),
                }
            },
            Err(_) => Err(Error::TooLongData),
        }
    }

    /// Decides which way `chunk` goes out: a chunk for a bare address goes
    /// through the peer at that address if there is one, and else directly;
    /// a chunk for a peer goes through that peer's connection.
    pub fn send<'a>(&self, chunk: Chunk<'a, A>) -> (route: Route<'a, A>)
        requires
            self.wf(),
            compares_by_value::<A>(),
            chunk.addr matches ChunkAddress::Peer(pid, _) ==> self@.contains_key(pid),
        ensures
            route == route_of(self@, chunk),
    {
        match chunk.addr {
            ChunkAddress::NonPeerConnless(addr) => match self.peers.pid_from_addr(addr) {
                Some(pid) => Route::PeerConnless { pid, addr, data: chunk.data },
                None => Route::Connless { addr, data: chunk.data },
            },
            ChunkAddress::Peer(pid, type_) => {
                let addr = self.peers.index(pid).addr;
                match type_ {
                    ChunkType::Connless => Route::PeerConnless { pid, addr, data: chunk.data },
                    ChunkType::Connected => Route::PeerConnected {
                        pid,
                        addr,
                        data: chunk.data,
                        vital: false,
                    },
                    ChunkType::Vital => Route::PeerConnected { pid, addr, data: chunk.data, vital: true },
                }
            },
        }
    }

    /// The address of the peer `pid`, if it is live.
    pub fn peer_addr(&self, pid: PeerId) -> (addr: Option<A>)
        requires
            self.wf(),
        ensures
            addr == addr_of(self@, pid),
    {
        match self.peers.get(pid) {
            Some(peer) => Some(peer.addr),
            None => None,
        }
    }

    /// The live peer at `addr`, if there is one: the peer whose connection a
    /// datagram from `addr` is for.
    pub fn pid_from_addr(&self, addr: A) -> (found: Option<PeerId>)
        requires
            self.wf(),
            compares_by_value::<A>(),
        ensures
            found == pid_at(self@, addr),
    {
        self.peers.pid_from_addr(addr)
    }

    /// Mutable access to the connection of the live peer `pid`.
    pub fn index_mut(&mut self, pid: PeerId) -> (conn: &mut C)
        requires
            old(self).wf(),
            old(self)@.contains_key(pid),
        ensures
            *conn == old(self)@[pid].conn,
            final(self).wf(),
            final(self).next_peer_id() == old(self).next_peer_id(),
            final(self)@ == old(self)@.insert(
                pid,
                Peer { conn: *final(conn), addr: old(self)@[pid].addr },
            ),
            keeps_addresses(old(self)@, final(self)@),
    {
        self.peers.index_mut(pid)
    }

    /// Forgets the live peer `pid`.
    pub fn remove_peer(&mut self, pid: PeerId)
        requires
            old(self).wf(),
            old(self)@.contains_key(pid),
        ensures
            final(self).wf(),
            final(self)@ == old(self)@.remove(pid),
            final(self).next_peer_id() == old(self).next_peer_id(),
            keeps_addresses(old(self)@, final(self)@),
    {
        self.peers.remove_peer(pid)
    }

    /// Takes in a datagram from `addr`, which is no peer's address, decoded
    /// as `packet`. A connectionless packet is handed up as one chunk. A
    /// connect request registers a peer at `addr` and is handed up as its
    /// connect event; the second result names that peer, into whose fresh
    /// connection the caller replays the datagram. Anything else is dropped.
    pub fn feed<'a>(&mut self, addr: A, packet: Option<Packet<'a>>) -> (fed: (
        ReceivePacket<'a, A>,
        Option<PeerId>,
    )) where C: Default
        requires
            old(self).wf(),
            pid_at(old(self)@, addr) is None,
            packet == Some(Packet::Connect) ==> has_vacancy(old(self)@),
        ensures
            final(self).wf(),
            keeps_addresses(old(self)@, final(self)@),
            match packet {
                Some(Packet::Connless(data)) => {
                    &&& fed.0@ == seq![
                        ChunkOrEvent::Chunk(Chunk { data, addr: ChunkAddress::NonPeerConnless(addr) }),
                    ]
                    &&& fed.1 is None
                    &&& final(self)@ == old(self)@
                    &&& final(self).next_peer_id() == old(self).next_peer_id()
                },
                Some(Packet::Connect) => {
                    &&& fed.1 matches Some(pid)
                    &&& fed.0@ == seq![ChunkOrEvent::<'a, A>::Connect(pid)]
                    &&& first_vacant(old(self)@.dom(), old(self).next_peer_id(), pid)
                    &&& final(self)@ == old(self)@.insert(pid, final(self)@[pid])
                    &&& final(self)@[pid].addr == addr
                    &&& fresh(final(self)@[pid].conn)
                    &&& final(self).next_peer_id() == successor(pid)
                    &&& pid_at(final(self)@, addr) == Some(pid)
                },
                _ => {
                    &&& fed.0@ == Seq::<ChunkOrEvent<'a, A>>::empty()
                    &&& fed.1 is None
                    &&& final(self)@ == old(self)@
                    &&& final(self).next_peer_id() == old(self).next_peer_id()
                },
            },
    {
        match packet {
            Some(Packet::Connless(data)) => (ReceivePacket::connless(addr, data), None),
            Some(Packet::Connect) => {
                let (pid, _) = self.peers.new_peer(addr);
                (ReceivePacket::connect(pid), Some(pid))
            },
            _ => (ReceivePacket::none(), None),
        }
    }
}

} // verus!
