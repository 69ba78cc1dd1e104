use net::peers::Peers;
use net::PeerId;

fn registry(addrs: &[u32]) -> (Peers<u32, u8>, Vec<PeerId>) {
    let mut peers = Peers::new();
    let mut pids = Vec::new();
    for &addr in addrs {
        pids.push(peers.new_peer(addr).0);
    }
    (peers, pids)
}

#[test]
fn get_and_increment_counts_up() {
    let mut id = PeerId(7);
    assert_eq!(id.get_and_increment(), PeerId(7));
    assert_eq!(id, PeerId(8));
    assert_eq!(id.get_and_increment(), PeerId(8));
    assert_eq!(id, PeerId(9));
}

#[test]
fn get_and_increment_wraps() {
    let mut id = PeerId(u32::MAX);
    assert_eq!(id.get_and_increment(), PeerId(u32::MAX));
    assert_eq!(id, PeerId(0));
}

#[test]
fn identifiers_start_at_zero() {
    let (peers, pids) = registry(&[10, 20, 30]);
    assert_eq!(pids, vec![PeerId(0), PeerId(1), PeerId(2)]);
    for (i, &addr) in [10u32, 20, 30].iter().enumerate() {
        assert_eq!(peers.get(pids[i]).map(|p| p.addr), Some(addr));
        assert_eq!(peers.index(pids[i]).addr, addr);
        assert_eq!(peers.pid_from_addr(addr), Some(pids[i]));
    }
    assert!(peers.get(PeerId(3)).is_none());
    assert_eq!(peers.pid_from_addr(40), None);
    assert!(!peers.is_full());
}

#[test]
fn empty_registry_knows_nobody() {
    let peers: Peers<u32, u8> = Peers::new();
    assert!(peers.get(PeerId(0)).is_none());
    assert_eq!(peers.pid_from_addr(0), None);
    assert!(!peers.is_full());
}

#[test]
fn new_peer_has_a_fresh_connection() {
    let (peers, pids) = registry(&[10]);
    assert_eq!(peers.index(pids[0]).conn, 0);
}

#[test]
fn index_mut_changes_the_connection_only() {
    let (mut peers, pids) = registry(&[10, 20, 30]);
    *peers.index_mut(pids[1]) = 99;
    assert_eq!(peers.index(pids[0]).conn, 0);
    assert_eq!(peers.index(pids[1]).conn, 99);
    assert_eq!(peers.index(pids[2]).conn, 0);
    assert_eq!(peers.index(pids[1]).addr, 20);
    assert_eq!(peers.pid_from_addr(20), Some(pids[1]));
}

#[test]
fn freed_identifier_is_not_handed_out_next() {
    let (mut peers, pids) = registry(&[10, 20, 30]);
    peers.remove_peer(pids[0]);
    assert_eq!(peers.new_peer(40).0, PeerId(3));
}

#[test]
fn removal_keeps_the_other_peers() {
    let addrs = [10u32, 20, 30, 40, 50];
    // Remove from the front, the middle and the back, in every order of two.
    for first in 0..addrs.len() {
        for second in 0..addrs.len() {
            if first == second {
                continue;
            }
            let (mut peers, pids) = registry(&addrs);
            for (n, &pid) in pids.iter().enumerate() {
                *peers.index_mut(pid) = n as u8 + 1;
            }
            peers.remove_peer(pids[first]);
            peers.remove_peer(pids[second]);
            for i in 0..addrs.len() {
                if i == first || i == second {
                    assert!(peers.get(pids[i]).is_none());
                    assert_eq!(peers.pid_from_addr(addrs[i]), None);
                } else {
                    let peer = peers.get(pids[i]).unwrap();
                    assert_eq!(peer.addr, addrs[i]);
                    assert_eq!(peer.conn, i as u8 + 1);
                    assert_eq!(peers.pid_from_addr(addrs[i]), Some(pids[i]));
                }
            }
        }
    }
}

#[test]
fn removing_the_only_peer_empties_the_registry() {
    let (mut peers, pids) = registry(&[10]);
    peers.remove_peer(pids[0]);
    assert!(peers.get(pids[0]).is_none());
    assert_eq!(peers.pid_from_addr(10), None);
    assert_eq!(peers.new_peer(10).0, PeerId(1));
    assert_eq!(peers.pid_from_addr(10), Some(PeerId(1)));
}

#[test]
fn peer_id_wraparound() {
    let (mut peers, pids) = registry(&[10, 20, 30]);
    assert_eq!(pids, vec![PeerId(0), PeerId(1), PeerId(2)]);
    peers.remove_peer(PeerId(1));

    // As after 2^32 - 1 allocations: the cursor stands at the last identifier.
    peers.set_next_peer_id(PeerId(u32::MAX));
    assert_eq!(peers.new_peer(40).0, PeerId(u32::MAX));
    // Wraps to zero, which is live, and goes on to the vacant one.
    assert_eq!(peers.new_peer(50).0, PeerId(1));
    // Two is live too.
    assert_eq!(peers.new_peer(60).0, PeerId(3));
    assert_eq!(peers.new_peer(70).0, PeerId(4));

    assert_eq!(peers.index(PeerId(0)).addr, 10);
    assert_eq!(peers.index(PeerId(1)).addr, 50);
    assert_eq!(peers.index(PeerId(2)).addr, 30);
    assert_eq!(peers.index(PeerId(3)).addr, 60);
    assert_eq!(peers.index(PeerId(4)).addr, 70);
    assert_eq!(peers.index(PeerId(u32::MAX)).addr, 40);
    assert_eq!(peers.pid_from_addr(20), None);
}

#[test]
fn probing_skips_a_run_of_live_identifiers() {
    let (mut peers, _) = registry(&[10, 20, 30, 40]);
    peers.set_next_peer_id(PeerId(0));
    assert_eq!(peers.new_peer(50).0, PeerId(4));
    peers.remove_peer(PeerId(2));
    peers.set_next_peer_id(PeerId(1));
    assert_eq!(peers.new_peer(60).0, PeerId(2));
    // The cursor now stands behind the identifier handed out.
    assert_eq!(peers.new_peer(70).0, PeerId(5));
}

#[test]
fn get_mut_finds_live_peers_only() {
    let (mut peers, pids) = registry(&[10, 20]);
    match peers.get_mut(pids[1]) {
        Some(conn) => *conn = 7,
        None => panic!(),
    }
    assert_eq!(peers.index(pids[1]).conn, 7);
    assert_eq!(peers.index(pids[0]).conn, 0);
    assert!(peers.get_mut(PeerId(2)).is_none());
    peers.remove_peer(pids[1]);
    assert!(peers.get_mut(pids[1]).is_none());
}

#[test]
fn new_peer_hands_out_its_connection() {
    let mut peers: Peers<u32, u8> = Peers::new();
    let (pid, conn) = peers.new_peer(10);
    assert_eq!(*conn, 0);
    *conn = 5;
    assert_eq!(pid, PeerId(0));
    assert_eq!(peers.index(pid).conn, 5);
    assert_eq!(peers.index(pid).addr, 10);
}
