use net::connection::ReceiveChunk;
use net::receive::deliver;
use net::{Chunk, ChunkAddress, ChunkOrEvent, ChunkType, Net, PeerId, ReceivePacket};

fn collect<'a>(mut packet: ReceivePacket<'a, u32>) -> Vec<ChunkOrEvent<'a, u32>> {
    let mut events = Vec::new();
    while let Some(event) = packet.next() {
        events.push(event);
    }
    events
}

fn net_with_peers(addrs: &[u32]) -> (Net<u32, u8>, Vec<PeerId>) {
    let mut net = Net::new();
    let mut pids = Vec::new();
    for &addr in addrs {
        pids.push(net.connect(addr).0);
    }
    (net, pids)
}

#[test]
fn none_is_empty() {
    let mut packet: ReceivePacket<u32> = ReceivePacket::none();
    assert!(packet.size_hint() == (0, Some(0)));
    assert!(packet.next().is_none());
    assert!(packet.next().is_none());
}

#[test]
fn connect_yields_the_peer_once() {
    let mut packet: ReceivePacket<u32> = ReceivePacket::connect(PeerId(5));
    assert!(packet.size_hint() == (1, Some(1)));
    assert!(packet.next() == Some(ChunkOrEvent::Connect(PeerId(5))));
    assert!(packet.size_hint() == (0, Some(0)));
    assert!(packet.next().is_none());
    assert!(packet.next().is_none());
}

#[test]
fn connless_yields_the_payload_once() {
    let mut packet = ReceivePacket::connless(9u32, b"data");
    assert!(packet.size_hint() == (1, Some(1)));
    assert!(packet.next() == Some(ChunkOrEvent::Chunk(Chunk {
        data: b"data",
        addr: ChunkAddress::NonPeerConnless(9),
    })));
    assert!(packet.size_hint() == (0, Some(0)));
    assert!(packet.next().is_none());
}

#[test]
fn deliver_maps_every_kind() {
    let pid = PeerId(3);
    assert!(deliver::<u32>(pid, ReceiveChunk::Connless(b"a"))
        == ChunkOrEvent::Chunk(Chunk { data: b"a", addr: ChunkAddress::Peer(pid, ChunkType::Connless) }));
    assert!(deliver::<u32>(pid, ReceiveChunk::Connected(b"b", false))
        == ChunkOrEvent::Chunk(Chunk { data: b"b", addr: ChunkAddress::Peer(pid, ChunkType::Connected) }));
    assert!(deliver::<u32>(pid, ReceiveChunk::Connected(b"c", true))
        == ChunkOrEvent::Chunk(Chunk { data: b"c", addr: ChunkAddress::Peer(pid, ChunkType::Vital) }));
    assert!(deliver::<u32>(pid, ReceiveChunk::Disconnect(b"d")) == ChunkOrEvent::Disconnect(pid, b"d"));
}

#[test]
fn connected_keeps_the_order_of_the_chunks() {
    let (mut net, pids) = net_with_peers(&[10, 20]);
    let pid = pids[1];
    let chunks = vec![
        ReceiveChunk::Connected(b"one", true),
        ReceiveChunk::Connless(b"two"),
        ReceiveChunk::Connected(b"three", false),
    ];
    let packet = ReceivePacket::connected(pid, chunks, &mut net);
    assert!(packet.size_hint() == (3, Some(3)));
    assert!(collect(packet) == &[
        ChunkOrEvent::Chunk(Chunk { data: b"one", addr: ChunkAddress::Peer(pid, ChunkType::Vital) }),
        ChunkOrEvent::Chunk(Chunk { data: b"two", addr: ChunkAddress::Peer(pid, ChunkType::Connless) }),
        ChunkOrEvent::Chunk(Chunk { data: b"three", addr: ChunkAddress::Peer(pid, ChunkType::Connected) }),
    ]);
    // No disconnect among them: the peer stays.
    assert!(net.peer_addr(pid) == Some(20));
    assert!(net.peer_addr(pids[0]) == Some(10));
}

#[test]
fn connected_without_chunks_is_empty() {
    let (mut net, pids) = net_with_peers(&[10]);
    let mut packet = ReceivePacket::connected(pids[0], Vec::new(), &mut net);
    assert!(packet.size_hint() == (0, Some(0)));
    assert!(packet.next().is_none());
    assert!(net.peer_addr(pids[0]) == Some(10));
}

#[test]
fn disconnect_removes_the_peer_before_it_is_read() {
    let (mut net, pids) = net_with_peers(&[10, 20, 30]);
    let pid = pids[1];
    let chunks = vec![ReceiveChunk::Connected(b"last", true), ReceiveChunk::Disconnect(b"bye")];
    let packet = ReceivePacket::connected(pid, chunks, &mut net);
    assert!(net.peer_addr(pid).is_none());
    assert!(net.peer_addr(pids[0]) == Some(10));
    assert!(net.peer_addr(pids[2]) == Some(30));
    assert!(collect(packet) == &[
        ChunkOrEvent::Chunk(Chunk { data: b"last", addr: ChunkAddress::Peer(pid, ChunkType::Vital) }),
        ChunkOrEvent::Disconnect(pid, b"bye"),
    ]);
}

#[test]
fn repeated_disconnect_removes_the_peer_once() {
    let (mut net, pids) = net_with_peers(&[10, 20]);
    let pid = pids[0];
    let chunks = vec![ReceiveChunk::Disconnect(b"a"), ReceiveChunk::Disconnect(b"b")];
    let packet = ReceivePacket::connected(pid, chunks, &mut net);
    assert!(net.peer_addr(pid).is_none());
    assert!(net.peer_addr(pids[1]) == Some(20));
    assert!(collect(packet) == &[ChunkOrEvent::Disconnect(pid, b"a"), ChunkOrEvent::Disconnect(pid, b"b")]);
}

#[test]
fn size_hint_is_the_count_of_a_clone() {
    let (mut net, pids) = net_with_peers(&[10]);
    let chunks = vec![
        ReceiveChunk::Connless(b"1"),
        ReceiveChunk::Connected(b"2", false),
        ReceiveChunk::Connected(b"3", true),
        ReceiveChunk::Connless(b"4"),
    ];
    let mut packet = ReceivePacket::connected(pids[0], chunks, &mut net);
    for left in (0..=4usize).rev() {
        assert!(packet.size_hint() == (left, Some(left)));
        assert_eq!(collect(packet.clone()).len(), left);
        let event = packet.next();
        assert_eq!(event.is_some(), left > 0);
    }
    assert!(packet.size_hint() == (0, Some(0)));

    let once: ReceivePacket<u32> = ReceivePacket::connect(PeerId(1));
    assert_eq!(collect(once.clone()).len(), 1);
    assert!(once.size_hint() == (1, Some(1)));
    let data = ReceivePacket::connless(1u32, b"x");
    assert_eq!(collect(data.clone()).len(), 1);
    assert!(data.size_hint() == (1, Some(1)));
}

#[test]
fn clone_restarts_where_the_packet_stands() {
    let (mut net, pids) = net_with_peers(&[10]);
    let pid = pids[0];
    let chunks = vec![ReceiveChunk::Connless(b"1"), ReceiveChunk::Connless(b"2")];
    let mut packet = ReceivePacket::connected(pid, chunks, &mut net);
    let whole = packet.clone();
    packet.next();
    let rest = packet.clone();
    assert_eq!(collect(whole).len(), 2);
    assert!(collect(rest) == &[ChunkOrEvent::Chunk(Chunk {
        data: b"2",
        addr: ChunkAddress::Peer(pid, ChunkType::Connless),
    })]);
    assert!(packet.next().is_some());
    assert!(packet.next().is_none());
}

#[test]
fn count_is_the_number_left() {
    let (mut net, pids) = net_with_peers(&[10]);
    let chunks = vec![ReceiveChunk::Connless(b"1"), ReceiveChunk::Connless(b"2"), ReceiveChunk::Connless(b"3")];
    let mut packet = ReceivePacket::connected(pids[0], chunks, &mut net);
    assert_eq!(packet.clone().count(), 3);
    packet.next();
    assert_eq!(packet.clone().count(), 2);
    packet.next();
    packet.next();
    assert_eq!(packet.clone().count(), 0);
    assert_eq!(ReceivePacket::<u32>::none().count(), 0);
    assert_eq!(ReceivePacket::<u32>::connect(PeerId(0)).count(), 1);
    assert_eq!(ReceivePacket::connless(1u32, b"x").count(), 1);
}
