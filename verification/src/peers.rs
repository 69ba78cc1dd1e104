//! The peer registry: which peers are live, under which identifier, and at
//! which address.

use crate::address::{compares_by_value, Address};
use crate::linear::{index_entries, index_get, index_insert, index_new, index_remove};
use crate::peer_id::{successor, PeerId};
use linear_map::LinearMap;
use vstd::prelude::*;
use vstd::relations::injective_on;
use vstd::set_lib::{lemma_int_range, lemma_len_subset, lemma_map_size, lemma_subset_equality, set_int_range};

verus! {

/// A remote endpoint together with the state of the connection to it.
pub struct Peer<A: Address, C> {
    pub conn: C,
    pub addr: A,
}

struct Slot<A: Address, C> {
    pid: PeerId,
    peer: Peer<A, C>,
}

/// The live peers, keyed by identifier, and the identifier at which the next
/// allocation starts probing.
pub struct Peers<A: Address, C> {
    index: LinearMap<u32, usize>,
    slots: Vec<Slot<A, C>>,
    next_peer_id: PeerId,
}

/// Number of increments that lead from `from` to `to`, wrapping around.
pub open spec fn steps(from: PeerId, to: PeerId) -> nat {
    ((to.0 - from.0) % 0x1_0000_0000) as nat
}

/// The identifier reached from `from` after `k` increments, wrapping around.
pub open spec fn advance(from: PeerId, k: nat) -> PeerId {
    PeerId(((from.0 + k) % 0x1_0000_0000) as u32)
}

/// `pid` is vacant in `live`, and every identifier probed before it, starting
/// at `from` and counting upwards with wrap-around, is taken.
pub open spec fn first_vacant(live: Set<PeerId>, from: PeerId, pid: PeerId) -> bool {
    &&& !live.contains(pid)
    &&& forall|k: nat| k < steps(from, pid) ==> live.contains(#[trigger] advance(from, k))
}

/// The address of the live peer `pid`, if there is one.
pub open spec fn addr_of<A: Address, C>(peers: Map<PeerId, Peer<A, C>>, pid: PeerId) -> Option<A> {
    if peers.contains_key(pid) {
        Some(peers[pid].addr)
    } else {
        None
    }
}

/// Holds when `pid` is live and its address is `addr`.
pub open spec fn is_at<A: Address, C>(peers: Map<PeerId, Peer<A, C>>, pid: PeerId, addr: A) -> bool {
    peers.contains_key(pid) && peers[pid].addr == addr
}

/// A live peer whose address is `addr`, if there is one.
pub open spec fn pid_at<A: Address, C>(peers: Map<PeerId, Peer<A, C>>, addr: A) -> Option<PeerId> {
    if exists|pid: PeerId| is_at(peers, pid, addr) {
        Some(choose|pid: PeerId| is_at(peers, pid, addr))
    } else {
        None
    }
}

/// Holds when at least one identifier is not in use.
pub open spec fn has_vacancy<A: Address, C>(peers: Map<PeerId, Peer<A, C>>) -> bool {
    exists|pid: PeerId| !peers.contains_key(pid)
}

/// Holds when no two live peers share an address.
pub open spec fn distinct_addresses<A: Address, C>(peers: Map<PeerId, Peer<A, C>>) -> bool {
    forall|p: PeerId, q: PeerId|
        peers.contains_key(p) && peers.contains_key(q) && p != q ==> (#[trigger] peers[p]).addr != (
        #[trigger] peers[q]).addr
}

/// Holds when every peer that is live both in `before` and in `after` has
/// the same address in both.
pub open spec fn keeps_addresses<A: Address, C>(
    before: Map<PeerId, Peer<A, C>>,
    after: Map<PeerId, Peer<A, C>>,
) -> bool {
    forall|pid: PeerId|
        before.contains_key(pid) && after.contains_key(pid) ==> (#[trigger] after[pid]).addr
            == before[pid].addr
}

/// Holds of a connection state that `C::default()` can return.
pub open spec fn fresh<C: Default>(conn: C) -> bool {
    call_ensures(C::default, (), conn)
}

impl<A: Address, C: Default> Peer<A, C> {
    /// A peer at `addr` with a connection in its initial state.
    pub fn new(addr: A) -> (peer: Peer<A, C>)
        ensures
            peer.addr == addr,
            fresh(peer.conn),
    {
        Peer { conn: C::default(), addr }
    }
}

impl<A: Address, C> Peers<A, C> {
    /// The registry as a map from live identifiers to peers.
    pub closed spec fn view(&self) -> Map<PeerId, Peer<A, C>> {
        Map::new(
            |pid: PeerId| index_entries(self.index).contains_key(pid.0),
            |pid: PeerId| self.slots@[index_entries(self.index)[pid.0] as int].peer,
        )
    }

    /// The identifier at which the next allocation starts probing.
    pub closed spec fn next_peer_id(&self) -> PeerId {
        self.next_peer_id
    }

    /// The index and the slots describe the same peers, and no two peers
    /// share an address.
    pub closed spec fn wf(&self) -> bool {
        let index = index_entries(self.index);
        &&& forall|i: int|
            0 <= i < self.slots@.len() ==> index.contains_key((#[trigger] self.slots@[i]).pid.0)
                && index[self.slots@[i].pid.0] == i
        &&& forall|key: u32|
            index.contains_key(key) ==> (#[trigger] index[key]) < self.slots@.len()
                && self.slots@[index[key] as int].pid.0 == key
        &&& forall|i: int, j: int|
            0 <= i < j < self.slots@.len() ==> (#[trigger] self.slots@[i]).peer.addr != (
            #[trigger] self.slots@[j]).peer.addr
    }

    /// An empty registry whose first allocation hands out identifier zero.
    pub fn new() -> (peers: Peers<A, C>)
        ensures
            peers.wf(),
            peers@ == Map::<PeerId, Peer<A, C>>::empty(),
            peers.next_peer_id() == PeerId(0),
    {
        let peers = Peers { index: index_new(), slots: Vec::new(), next_peer_id: PeerId(0) };
        assert(peers@ =~= Map::<PeerId, Peer<A, C>>::empty());
        peers
    }

    /// Registers a peer at `addr` under the first vacant identifier, probing
    /// upwards from the allocation cursor with wrap-around, and leaves the
    /// cursor just behind the identifier handed out.
    pub fn new_peer(&mut self, addr: A) -> (made: (PeerId, &mut C)) where C: Default
        requires
            old(self).wf(),
            has_vacancy(old(self)@),
            pid_at(old(self)@, addr) is None,
        ensures
            first_vacant(old(self)@.dom(), old(self).next_peer_id(), made.0),
            fresh(*made.1),
            final(self).wf(),
            final(self)@ == old(self)@.insert(made.0, Peer { conn: *final(made.1), addr }),
            final(self).next_peer_id() == successor(made.0),
            pid_at(final(self)@, addr) == Some(made.0),
            keeps_addresses(old(self)@, final(self)@),
    {
        let ghost vacant = choose|v: PeerId| !self@.contains_key(v);
        let ghost start = self.next_peer_id;
        let mut pid = self.next_peer_id.get_and_increment();
        while index_get(&self.index, pid.0).is_some()
            invariant
                self.index == old(self).index,
                self.slots == old(self).slots,
                self.next_peer_id == successor(pid),
                !self@.contains_key(vacant),
                steps(start, pid) + steps(pid, vacant) == steps(start, vacant),
                forall|k: nat|
                    k < steps(start, pid) ==> self@.contains_key(#[trigger] advance(start, k)),
            decreases steps(pid, vacant),
        {
            proof {
                assert(self@.contains_key(pid));
                assert(pid != vacant);
                let next = successor(pid);
                assert(steps(start, next) == steps(start, pid) + 1);
                assert(steps(next, vacant) + 1 == steps(pid, vacant));
                assert(advance(start, steps(start, pid)) == pid);
            }
            pid = self.next_peer_id.get_and_increment();
        }
        let pos = self.slots.len();
        let peer = Peer::new(addr);
        let ghost conn = peer.conn;
        self.slots.push(Slot { pid, peer });
        index_insert(&mut self.index, pid.0, pos);
        proof {
            let before = index_entries(old(self).index);
            let after = index_entries(self.index);
            assert(after == before.insert(pid.0, pos));
            assert(!before.contains_key(pid.0));
            assert forall|i: int| 0 <= i < self.slots@.len() implies after.contains_key(
                (#[trigger] self.slots@[i]).pid.0,
            ) && after[self.slots@[i].pid.0] == i by {
                if i < pos {
                    assert(self.slots@[i] == old(self).slots@[i]);
                }
            }
            assert forall|key: u32| after.contains_key(key) implies (#[trigger] after[key])
                < self.slots@.len() && self.slots@[after[key] as int].pid.0 == key by {
                if key != pid.0 {
                    assert(before.contains_key(key));
                    assert(self.slots@[before[key] as int] == old(self).slots@[before[key] as int]);
                }
            }
            assert forall|i: int, j: int| 0 <= i < j < self.slots@.len() implies (
            #[trigger] self.slots@[i]).peer.addr != (#[trigger] self.slots@[j]).peer.addr by {
                assert(self.slots@[i] == old(self).slots@[i]);
                let earlier = old(self).slots@[i].pid;
                assert(is_at(old(self)@, earlier, old(self).slots@[i].peer.addr));
                if j < pos {
                    assert(self.slots@[j] == old(self).slots@[j]);
                }
            }
            assert(self@[pid] == Peer { conn, addr });
            old(self).lemma_distinct_addresses();
            assert forall|any: C|
                pid_at(#[trigger] old(self)@.insert(pid, Peer { conn: any, addr }), addr) == Some(
                    pid,
                ) by {
                lemma_insert_resolves(old(self)@, pid, Peer { conn: any, addr });
            }
            assert(self@ =~= old(self)@.insert(pid, Peer { conn, addr })) by {
                assert forall|p: PeerId| old(self)@.contains_key(p) && p != pid implies self@[p]
                    == old(self)@[p] by {
                    assert(self.slots@[before[p.0] as int] == old(self).slots@[before[p.0] as int]);
                }
            }
        }
        (pid, &mut self.slots[pos].peer.conn)
    }

    /// Forgets the live peer `pid`, dropping its connection state.
    pub fn remove_peer(&mut self, pid: PeerId)
        requires
            old(self).wf(),
            old(self)@.contains_key(pid),
        ensures
            final(self).wf(),
            final(self)@ == old(self)@.remove(pid),
            final(self).next_peer_id() == old(self).next_peer_id(),
            keeps_addresses(old(self)@, final(self)@),
    {
        let pos = index_remove(&mut self.index, pid.0).unwrap();
        let last = self.slots.len() - 1;
        self.slots.swap_remove(pos);
        if pos < last {
            let moved = self.slots[pos].pid;
            index_insert(&mut self.index, moved.0, pos);
        }
        proof {
            let before = index_entries(old(self).index);
            let after = index_entries(self.index);
            let gone = old(self).slots@;
            let kept = self.slots@;
            assert(kept == gone.update(pos as int, gone.last()).drop_last());
            assert(gone[pos as int].pid == pid);
            assert forall|i: int| 0 <= i < kept.len() implies after.contains_key(
                (#[trigger] kept[i]).pid.0,
            ) && after[kept[i].pid.0] == i by {
                if i == pos {
                    assert(kept[i] == gone[last as int]);
                } else {
                    assert(kept[i] == gone[i]);
                }
            }
            assert forall|key: u32| after.contains_key(key) implies (#[trigger] after[key])
                < kept.len() && kept[after[key] as int].pid.0 == key by {
                assert(before.contains_key(key));
                if before[key] == last {
                    assert(gone[last as int].pid.0 == key);
                } else {
                    assert(kept[before[key] as int] == gone[before[key] as int]);
                }
            }
            assert forall|i: int, j: int| 0 <= i < j < kept.len() implies (#[trigger] kept[i]).peer.addr
                != (#[trigger] kept[j]).peer.addr by {
                let from_i = if i == pos { last as int } else { i };
                let from_j = if j == pos { last as int } else { j };
                assert(kept[i] == gone[from_i]);
                assert(kept[j] == gone[from_j]);
                if from_i < from_j {
                    assert(gone[from_i].peer.addr != gone[from_j].peer.addr);
                } else {
                    assert(gone[from_j].peer.addr != gone[from_i].peer.addr);
                }
            }
            assert(self@ =~= old(self)@.remove(pid)) by {
                assert forall|p: PeerId| old(self)@.contains_key(p) && p != pid implies self@[p]
                    == old(self)@[p] by {
                    if before[p.0] == last {
                        assert(kept[pos as int] == gone[last as int]);
                    } else {
                        assert(kept[before[p.0] as int] == gone[before[p.0] as int]);
                    }
                }
            }
        }
    }

    /// The identifier of the live peer at `addr`, if there is one.
    pub fn pid_from_addr(&self, addr: A) -> (found: Option<PeerId>)
        requires
            self.wf(),
            compares_by_value::<A>(),
        ensures
            found == pid_at(self@, addr),
    {
        let mut i: usize = 0;
        while i < self.slots.len()
            invariant
                self.wf(),
                compares_by_value::<A>(),
                i <= self.slots@.len(),
                forall|j: int| 0 <= j < i ==> (#[trigger] self.slots@[j]).peer.addr != addr,
            decreases self.slots@.len() - i,
        {
            proof {
                reveal(vstd::laws_eq::obeys_concrete_eq);
            }
            if self.slots[i].peer.addr == addr {
                let pid = self.slots[i].pid;
                proof {
                    assert(self@[pid] == self.slots@[i as int].peer);
                    assert(is_at(self@, pid, addr));
                    self.lemma_distinct_addresses();
                }
                return Some(pid);
            }
            i += 1;
        }
        assert forall|pid: PeerId| !is_at(self@, pid, addr) by {
            if self@.contains_key(pid) {
                let pos = index_entries(self.index)[pid.0] as int;
                assert(self@[pid] == self.slots@[pos].peer);
            }
        }
        None
    }

    /// The live peer `pid`, if there is one.
    pub fn get(&self, pid: PeerId) -> (peer: Option<&Peer<A, C>>)
        requires
            self.wf(),
        ensures
            peer == (if self@.contains_key(pid) {
                Some(&self@[pid])
            } else {
                None
            }),
    {
        match index_get(&self.index, pid.0) {
            Some(pos) => Some(&self.slots[pos].peer),
            None => None,
        }
    }

    /// Mutable access to the connection state of the peer `pid`, if it is
    /// live.
    pub fn get_mut(&mut self, pid: PeerId) -> (found: Option<&mut C>)
        requires
            old(self).wf(),
        ensures
            final(self).wf(),
            final(self).next_peer_id() == old(self).next_peer_id(),
            keeps_addresses(old(self)@, final(self)@),
            match found {
                Some(conn) => {
                    &&& old(self)@.contains_key(pid)
                    &&& *conn == old(self)@[pid].conn
                    &&& final(self)@ == old(self)@.insert(
                        pid,
                        Peer { conn: *final(conn), addr: old(self)@[pid].addr },
                    )
                },
                None => !old(self)@.contains_key(pid) && final(self)@ == old(self)@,
            },
    {
        match index_get(&self.index, pid.0) {
            Some(pos) => Some(&mut self.slots[pos].peer.conn),
            None => None,
        }
    }

    /// The live peer `pid`.
    pub fn index(&self, pid: PeerId) -> (peer: &Peer<A, C>)
        requires
            self.wf(),
            self@.contains_key(pid),
        ensures
            *peer == self@[pid],
    {
        let pos = index_get(&self.index, pid.0).unwrap();
        &self.slots[pos].peer
    }

    /// Mutable access to the connection state of a live peer.
    pub fn index_mut(&mut self, pid: PeerId) -> (conn: &mut C)
        requires
            old(self).wf(),
            old(self)@.contains_key(pid),
        ensures
            *conn == old(self)@[pid].conn,
            final(self).wf(),
            final(self)@ == old(self)@.insert(
                pid,
                Peer { conn: *final(conn), addr: old(self)@[pid].addr },
            ),
            final(self).next_peer_id() == old(self).next_peer_id(),
            keeps_addresses(old(self)@, final(self)@),
    {
        let pos = index_get(&self.index, pid.0).unwrap();
        &mut self.slots[pos].peer.conn
    }

    /// Moves the allocation cursor to `next`; the peers stay as they are.
    pub fn set_next_peer_id(&mut self, next: PeerId)
        requires
            old(self).wf(),
        ensures
            final(self).wf(),
            final(self)@ == old(self)@,
            final(self).next_peer_id() == next,
    {
        self.next_peer_id = next;
    }

    /// Whether every identifier is in use, so that no peer can be added.
    pub fn is_full(&self) -> (full: bool)
        requires
            self.wf(),
        ensures
            full == !has_vacancy(self@),
    {
        let full = self.slots.len() > u32::MAX as usize;
        proof {
            self.lemma_vacancy();
        }
        full
    }

    /// No two live peers of a well-formed registry share an address.
    pub proof fn lemma_distinct_addresses(&self)
        requires
            self.wf(),
        ensures
            distinct_addresses(self@),
    {
        assert forall|p: PeerId, q: PeerId|
            self@.contains_key(p) && self@.contains_key(q) && p != q implies (#[trigger] self@[p]).addr
            != (#[trigger] self@[q]).addr by {
            let i = index_entries(self.index)[p.0] as int;
            let j = index_entries(self.index)[q.0] as int;
            assert(self.slots@[i].pid == p && self.slots@[j].pid == q);
            if i < j {
                assert(self.slots@[i].peer.addr != self.slots@[j].peer.addr);
            } else {
                assert(self.slots@[j].peer.addr != self.slots@[i].peer.addr);
            }
        }
    }

    /// Some identifier is vacant exactly when there are fewer peers than
    /// identifiers.
    proof fn lemma_vacancy(&self)
        requires
            self.wf(),
        ensures
            has_vacancy(self@) <==> self.slots@.len() < 0x1_0000_0000,
    {
        let index = index_entries(self.index);
        let len = self.slots@.len() as int;
        let positions = set_int_range(0, len);
        let all = set_int_range(0, 0x1_0000_0000);
        let key_at = |i: int| self.slots@[i].pid.0 as int;
        let taken = positions.map(key_at);
        lemma_int_range(0, len);
        lemma_int_range(0, 0x1_0000_0000);
        assert(injective_on(key_at, positions)) by {
            assert forall|i: int, j: int|
                positions.contains(i) && positions.contains(j) && #[trigger] key_at(i)
                    == #[trigger] key_at(j) implies i == j by {
                assert(index[self.slots@[i].pid.0] == i);
                assert(index[self.slots@[j].pid.0] == j);
            }
        }
        lemma_map_size(positions, taken, key_at);
        assert(taken.subset_of(all)) by {
            assert forall|key: int| taken.contains(key) implies all.contains(key) by {
                let i = choose|i: int| positions.contains(i) && key == key_at(i);
            }
        }
        lemma_len_subset(taken, all);
        assert forall|pid: PeerId| self@.contains_key(pid) <==> taken.contains(pid.0 as int) by {
            if self@.contains_key(pid) {
                let i = index[pid.0] as int;
                assert(positions.contains(i) && key_at(i) == pid.0 as int);
            }
            if taken.contains(pid.0 as int) {
                let i = choose|i: int| positions.contains(i) && pid.0 as int == key_at(i);
                assert(self.slots@[i].pid.0 == pid.0);
            }
        }
        if len < 0x1_0000_0000 {
            if forall|key: int| all.contains(key) ==> taken.contains(key) {
                assert(all.subset_of(taken));
                lemma_len_subset(all, taken);
            }
            let key = choose|key: int| all.contains(key) && !taken.contains(key);
            assert(!self@.contains_key(PeerId(key as u32)));
        } else {
            lemma_subset_equality(taken, all);
            assert forall|pid: PeerId| self@.contains_key(pid) by {
                assert(all.contains(pid.0 as int));
            }
        }
    }
}

/// Probing from `from` leads to `pid` after `steps(from, pid)` increments.
pub proof fn lemma_advance_steps(from: PeerId, pid: PeerId)
    ensures
        advance(from, steps(from, pid)) == pid,
        steps(from, pid) < 0x1_0000_0000,
{
}

/// The live identifiers and the cursor determine which identifier an
/// allocation hands out.
pub proof fn lemma_first_vacant_unique(live: Set<PeerId>, from: PeerId, p: PeerId, q: PeerId)
    requires
        first_vacant(live, from, p),
        first_vacant(live, from, q),
    ensures
        p == q,
{
    lemma_advance_steps(from, p);
    lemma_advance_steps(from, q);
    if steps(from, p) < steps(from, q) {
        assert(live.contains(advance(from, steps(from, p))));
    } else if steps(from, q) < steps(from, p) {
        assert(live.contains(advance(from, steps(from, q))));
    }
}

/// Where no two live peers share an address, the peer at an address is the
/// only one there.
pub proof fn lemma_pid_at<A: Address, C>(peers: Map<PeerId, Peer<A, C>>, pid: PeerId, addr: A)
    requires
        distinct_addresses(peers),
        is_at(peers, pid, addr),
    ensures
        pid_at(peers, addr) == Some(pid),
{
    let found = choose|other: PeerId| is_at(peers, other, addr);
    if found != pid {
        assert(peers[found].addr != peers[pid].addr);
    }
}

/// Registering a peer at an address that nobody has keeps the addresses
/// distinct, makes that address lead to the new peer, and leaves every other
/// address as it was.
pub proof fn lemma_insert_resolves<A: Address, C>(
    peers: Map<PeerId, Peer<A, C>>,
    pid: PeerId,
    peer: Peer<A, C>,
)
    requires
        distinct_addresses(peers),
        !peers.contains_key(pid),
        pid_at(peers, peer.addr) is None,
    ensures
        distinct_addresses(peers.insert(pid, peer)),
        pid_at(peers.insert(pid, peer), peer.addr) == Some(pid),
        forall|addr: A|
            addr != peer.addr ==> #[trigger] pid_at(peers.insert(pid, peer), addr) == pid_at(
                peers,
                addr,
            ),
{
    let after = peers.insert(pid, peer);
    assert forall|p: PeerId, q: PeerId|
        after.contains_key(p) && after.contains_key(q) && p != q implies (#[trigger] after[p]).addr
        != (#[trigger] after[q]).addr by {
        if p == pid {
            assert(!is_at(peers, q, peer.addr));
        } else if q == pid {
            assert(!is_at(peers, p, peer.addr));
        }
    }
    assert(is_at(after, pid, peer.addr));
    lemma_pid_at(after, pid, peer.addr);
    assert forall|addr: A| addr != peer.addr implies #[trigger] pid_at(after, addr) == pid_at(
        peers,
        addr,
    ) by {
        assert forall|other: PeerId| is_at(after, other, addr) == is_at(peers, other, addr) by {}
    }
}

/// Removing a peer keeps the addresses distinct, leaves its address without
/// a peer, and leaves every other address as it was.
pub proof fn lemma_remove_forgets<A: Address, C>(peers: Map<PeerId, Peer<A, C>>, pid: PeerId)
    requires
        distinct_addresses(peers),
        peers.contains_key(pid),
    ensures
        distinct_addresses(peers.remove(pid)),
        pid_at(peers.remove(pid), peers[pid].addr) is None,
        forall|addr: A|
            addr != peers[pid].addr ==> #[trigger] pid_at(peers.remove(pid), addr) == pid_at(
                peers,
                addr,
            ),
{
    let after = peers.remove(pid);
    assert forall|other: PeerId| !is_at(after, other, peers[pid].addr) by {
        if after.contains_key(other) {
            assert(peers[other].addr != peers[pid].addr);
        }
    }
    assert forall|addr: A| addr != peers[pid].addr implies #[trigger] pid_at(after, addr)
        == pid_at(peers, addr) by {
        assert forall|other: PeerId| is_at(after, other, addr) == is_at(peers, other, addr) by {}
    }
}

/// What a connection does to its own state changes no address and no
/// route: every address leads to the same peer as before.
pub proof fn lemma_conn_keeps_routes<A: Address, C>(
    peers: Map<PeerId, Peer<A, C>>,
    pid: PeerId,
    conn: C,
)
    requires
        distinct_addresses(peers),
        peers.contains_key(pid),
    ensures
        distinct_addresses(peers.insert(pid, Peer { conn, addr: peers[pid].addr })),
        forall|addr: A|
            #[trigger] pid_at(peers.insert(pid, Peer { conn, addr: peers[pid].addr }), addr)
                == pid_at(peers, addr),
{
    let after = peers.insert(pid, Peer { conn, addr: peers[pid].addr });
    assert forall|p: PeerId, q: PeerId|
        after.contains_key(p) && after.contains_key(q) && p != q implies (#[trigger] after[p]).addr
        != (#[trigger] after[q]).addr by {
        assert(after[p].addr == peers[p].addr);
        assert(after[q].addr == peers[q].addr);
    }
    assert forall|addr: A| #[trigger] pid_at(after, addr) == pid_at(peers, addr) by {
        assert forall|other: PeerId| is_at(after, other, addr) == is_at(peers, other, addr) by {}
    }
}

} // verus!
