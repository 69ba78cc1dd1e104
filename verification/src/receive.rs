//! The events that one fed datagram gives rise to, handed out one by one.

use crate::address::Address;
use crate::chunk::{Chunk, ChunkAddress, ChunkOrEvent, ChunkType};
use crate::connection::ReceiveChunk;
use crate::net::Net;
use crate::peers::{addr_of, keeps_addresses};
use crate::peer_id::PeerId;
use vstd::prelude::*;

verus! {

/// What the application sees of `chunk`, an observation of the connection to
/// the peer `pid`.
pub open spec fn outward<'a, A: Address>(pid: PeerId, chunk: ReceiveChunk<'a>) -> ChunkOrEvent<
    'a,
    A,
> {
    match chunk {
        ReceiveChunk::Connless(data) => ChunkOrEvent::Chunk(
            Chunk { data, addr: ChunkAddress::Peer(pid, ChunkType::Connless) },
        ),
        ReceiveChunk::Connected(data, vital) => ChunkOrEvent::Chunk(
            Chunk {
                data,
                addr: ChunkAddress::Peer(
                    pid,
                    if vital {
                        ChunkType::Vital
                    } else {
                        ChunkType::Connected
                    },
                ),
            },
        ),
        ReceiveChunk::Disconnect(reason) => ChunkOrEvent::Disconnect(pid, reason),
    }
}

/// The observations of the connection to `pid`, each as the application sees
/// it, in the same order.
pub open spec fn outward_all<'a, A: Address>(pid: PeerId, chunks: Seq<ReceiveChunk<'a>>) -> Seq<
    ChunkOrEvent<'a, A>,
> {
    Seq::new(chunks.len(), |i: int| outward(pid, chunks[i]))
}

/// Holds when one of `chunks` reports that the peer closed the connection.
pub open spec fn has_disconnect<'a>(chunks: Seq<ReceiveChunk<'a>>) -> bool {
    exists|i: int| 0 <= i < chunks.len() && (#[trigger] chunks[i]) is Disconnect
}

/// The chunk or event that stands for one observation of a connection.
pub fn deliver<'a, A: Address>(pid: PeerId, chunk: ReceiveChunk<'a>) -> (event: ChunkOrEvent<'a, A>)
    ensures
        event == outward::<A>(pid, chunk),
{
    match chunk {
        ReceiveChunk::Connless(data) => ChunkOrEvent::Chunk(
            Chunk { data, addr: ChunkAddress::Peer(pid, ChunkType::Connless) },
        ),
        ReceiveChunk::Connected(data, vital) => ChunkOrEvent::Chunk(
            Chunk {
                data,
                addr: ChunkAddress::Peer(
                    pid,
                    if vital {
                        ChunkType::Vital
                    } else {
                        ChunkType::Connected
                    },
                ),
            },
        ),
        ReceiveChunk::Disconnect(reason) => ChunkOrEvent::Disconnect(pid, reason),
    }
}

/// The sequence of chunks and events that came out of one datagram. Its view
/// is what is still to be handed out.
pub struct ReceivePacket<'a, A: Address> {
    type_: ReceivePacketType<'a, A>,
}

enum ReceivePacketType<'a, A: Address> {
    Empty,
    Connect(Option<PeerId>),
    Connected(PeerId, Vec<ReceiveChunk<'a>>, usize),
    Connless(A, Option<&'a [u8]>),
}

impl<'a, A: Address> Clone for ReceivePacket<'a, A> {
    /// A second sequence with the same chunks and events still to hand out.
    fn clone(&self) -> (copy: Self)
        ensures
            copy@ == self@,
    {
        let type_ = match &self.type_ {
            ReceivePacketType::Empty => ReceivePacketType::Empty,
            ReceivePacketType::Connect(once) => ReceivePacketType::Connect(*once),
            ReceivePacketType::Connected(pid, chunks, pos) => {
                let mut copied: Vec<ReceiveChunk<'a>> = Vec::new();
                let mut i: usize = 0;
                while i < chunks.len()
                    invariant
                        i <= chunks@.len(),
                        copied@ == chunks@.subrange(0, i as int),
                    decreases chunks@.len() - i,
                {
                    copied.push(chunks[i]);
                    assert(copied@ =~= chunks@.subrange(0, i + 1));
                    i += 1;
                }
                assert(copied@ =~= chunks@);
                ReceivePacketType::Connected(*pid, copied, *pos)
            },
            ReceivePacketType::Connless(addr, once) => ReceivePacketType::Connless(*addr, *once),
        };
        ReceivePacket { type_ }
    }
}

impl<'a, A: Address> ReceivePacket<'a, A> {
    /// The chunks and events not handed out yet, next one first.
    pub closed spec fn view(&self) -> Seq<ChunkOrEvent<'a, A>> {
        match self.type_ {
            ReceivePacketType::Empty => Seq::empty(),
            ReceivePacketType::Connect(once) => match once {
                Some(pid) => seq![ChunkOrEvent::Connect(pid)],
                None => Seq::empty(),
            },
            ReceivePacketType::Connected(pid, chunks, pos) => if pos <= chunks@.len() {
                outward_all(pid, chunks@.subrange(pos as int, chunks@.len() as int))
            } else {
                Seq::empty()
            },
            ReceivePacketType::Connless(addr, once) => match once {
                Some(data) => seq![
                    ChunkOrEvent::Chunk(Chunk { data, addr: ChunkAddress::NonPeerConnless(addr) }),
                ],
                None => Seq::empty(),
            },
        }
    }

    /// Nothing came out of the datagram.
    pub fn none() -> (packet: ReceivePacket<'a, A>)
        ensures
            packet@ == Seq::<ChunkOrEvent<'a, A>>::empty(),
    {
        ReceivePacket { type_: ReceivePacketType::Empty }
    }

    /// The datagram opened the connection to the new peer `pid`.
    pub fn connect(pid: PeerId) -> (packet: ReceivePacket<'a, A>)
        ensures
            packet@ == seq![ChunkOrEvent::<'a, A>::Connect(pid)],
    {
        ReceivePacket { type_: ReceivePacketType::Connect(Some(pid)) }
    }

    /// The datagram went through the connection to `pid`, which observed
    /// `receive_packet`. Where the connection reports that the peer closed
    /// it, the peer leaves the registry of `net` at once; the application
    /// still gets to see the disconnect.
    pub fn connected<C>(pid: PeerId, receive_packet: Vec<ReceiveChunk<'a>>, net: &mut Net<A, C>) -> (packet:
        ReceivePacket<'a, A>)
        requires
            old(net).wf(),
            old(net)@.contains_key(pid),
        ensures
            packet@ == outward_all::<A>(pid, receive_packet@),
            final(net).wf(),
            final(net).next_peer_id() == old(net).next_peer_id(),
            final(net)@ == (if has_disconnect(receive_packet@) {
                old(net)@.remove(pid)
            } else {
                old(net)@
            }),
            keeps_addresses(old(net)@, final(net)@),
            forall|i: int|
                0 <= i < packet@.len() ==> (#[trigger] packet@[i] matches ChunkOrEvent::Disconnect(
                    gone,
                    _,
                ) ==> gone == pid && addr_of(final(net)@, gone) is None),
    {
        let mut closed = false;
        let mut i: usize = 0;
        while i < receive_packet.len()
            invariant
                i <= receive_packet@.len(),
                closed == has_disconnect(receive_packet@.subrange(0, i as int)),
            decreases receive_packet@.len() - i,
        {
            let ghost seen = receive_packet@.subrange(0, i as int);
            let ghost more = receive_packet@.subrange(0, i + 1);
            if let ReceiveChunk::Disconnect(..) = receive_packet[i] {
                assert(more[i as int] is Disconnect);
                closed = true;
            } else {
                assert forall|j: int| 0 <= j < more.len() && (#[trigger] more[j]) is Disconnect implies j
                    < seen.len() && seen[j] is Disconnect by {}
                assert forall|j: int| 0 <= j < seen.len() && (#[trigger] seen[j]) is Disconnect implies j
                    < more.len() && more[j] is Disconnect by {}
            }
            i += 1;
        }
        assert(receive_packet@.subrange(0, i as int) == receive_packet@);
        if closed {
            net.remove_peer(pid);
        }
        let packet = ReceivePacket { type_: ReceivePacketType::Connected(pid, receive_packet, 0) };
        assert(receive_packet@.subrange(0, receive_packet@.len() as int) == receive_packet@);
        packet
    }

    /// The datagram was a connectionless one, carrying `data`, from `addr`,
    /// which is no peer's address.
    pub fn connless(addr: A, data: &'a [u8]) -> (packet: ReceivePacket<'a, A>)
        ensures
            packet@ == seq![
                ChunkOrEvent::Chunk(Chunk { data, addr: ChunkAddress::NonPeerConnless(addr) }),
            ],
    {
        ReceivePacket { type_: ReceivePacketType::Connless(addr, Some(data)) }
    }

    /// Hands out the next chunk or event, if any is left.
    pub fn next(&mut self) -> (event: Option<ChunkOrEvent<'a, A>>)
        ensures
            event == (if old(self)@.len() > 0 {
                Some(old(self)@[0])
            } else {
                None
            }),
            final(self)@ == (if old(self)@.len() > 0 {
                old(self)@.drop_first()
            } else {
                old(self)@
            }),
    {
        match &mut self.type_ {
            ReceivePacketType::Empty => None,
            ReceivePacketType::Connect(once) => match once.take() {
                Some(pid) => {
                    assert(seq![ChunkOrEvent::<'a, A>::Connect(pid)].drop_first() =~= Seq::empty());
                    Some(ChunkOrEvent::Connect(pid))
                },
                None => None,
            },
            ReceivePacketType::Connected(pid, chunks, pos) => {
                if *pos < chunks.len() {
                    let ghost rest = chunks@.subrange(*pos as int, chunks@.len() as int);
                    let chunk = chunks[*pos];
                    *pos = *pos + 1;
                    assert(rest[0] == chunk);
                    assert(outward_all::<A>(*pid, chunks@.subrange(*pos as int, chunks@.len() as int))
                        =~= outward_all::<A>(*pid, rest).drop_first());
                    Some(deliver(*pid, chunk))
                } else {
                    None
                }
            },
            ReceivePacketType::Connless(addr, once) => match once.take() {
                Some(data) => {
                    let event = ChunkOrEvent::Chunk(
                        Chunk { data, addr: ChunkAddress::NonPeerConnless(*addr) },
                    );
                    assert(seq![event].drop_first() =~= Seq::empty());
                    Some(event)
                },
                None => None,
            },
        }
    }

    /// Hands out everything that is left and says how many chunks and events
    /// that were.
    pub fn count(self) -> (left: usize)
        ensures
            left == self@.len(),
    {
        let mut rest = self;
        let mut left: usize = 0;
        proof {
            rest.lemma_len_fits();
        }
        loop
            invariant
                left + rest@.len() == self@.len(),
                self@.len() <= usize::MAX,
            ensures
                left == self@.len(),
            decreases rest@.len(),
        {
            match rest.next() {
                Some(_) => {
                    left += 1;
                },
                None => {
                    break ;
                },
            }
        }
        left
    }

    /// The exact number of chunks and events still to be handed out, as lower
    /// and as upper bound: what a copy of the packet counts to.
    pub fn size_hint(&self) -> (bounds: (usize, Option<usize>))
        ensures
            bounds.0 == self@.len(),
            bounds.1 == Some(bounds.0),
    {
        let len = self.clone().count();
        (len, Some(len))
    }

    /// The number of chunks and events left fits the machine's word.
    proof fn lemma_len_fits(&self)
        ensures
            self@.len() <= usize::MAX,
    {
        match self.type_ {
            ReceivePacketType::Connected(_, chunks, _) => {
                assert(chunks@.len() == chunks.len());
            },
            _ => {},
        }
    }
}

} // verus!
