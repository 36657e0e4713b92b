use vstd::prelude::*;

use crate::types::{ConnState, Endpoint, PeerId, PeerIndex, ProtocolId};

verus! {

/// A live peer: its handle and the time of its last inbound message.
#[derive(Clone, Copy, Debug, PartialEq, Eq, Structural)]
pub struct Peer {
    pub peer_id: PeerId,
    pub peer_index: PeerIndex,
    pub last_message_time: Option<u64>,
}

/// The slot of one protocol on one peer.
#[derive(Clone, Copy, Debug, PartialEq, Eq, Structural)]
pub struct Slot {
    pub peer_id: PeerId,
    pub protocol_id: ProtocolId,
    pub endpoint: Endpoint,
    pub state: ConnState,
}

#[derive(Clone, Copy, Debug, PartialEq, Eq, Structural)]
pub enum RegistryError {
    /// The peer could not be admitted: the registry is full, or out of indices.
    Unresolvable,
}

/// Abstract state of a `Registry`.
pub struct RegistryView {
    pub peers: Seq<Peer>,
    pub slots: Seq<Slot>,
    pub max_peers: nat,
    pub next_index: nat,
}

/// `j` is the first position of peer `p` in `s`.
pub open spec fn is_first_peer(s: Seq<Peer>, p: PeerId, j: int) -> bool {
    &&& 0 <= j < s.len()
    &&& s[j].peer_id == p
    &&& forall|k: int| 0 <= k < j ==> s[k].peer_id != p
}

/// `j` is the first position of the slot of protocol `pid` on peer `p` in `s`.
pub open spec fn is_first_slot(s: Seq<Slot>, p: PeerId, pid: ProtocolId, j: int) -> bool {
    &&& 0 <= j < s.len()
    &&& s[j].peer_id == p
    &&& s[j].protocol_id == pid
    &&& forall|k: int| 0 <= k < j ==> !(s[k].peer_id == p && s[k].protocol_id == pid)
}

pub open spec fn other_peer(p: PeerId) -> spec_fn(Peer) -> bool {
    |e: Peer| e.peer_id != p
}

pub open spec fn other_peer_slot(p: PeerId) -> spec_fn(Slot) -> bool {
    |s: Slot| s.peer_id != p
}

/// The last-message time after a message at `now`: it never moves back.
pub open spec fn activity(last: Option<u64>, now: u64) -> Option<u64> {
    match last {
        Some(t) => if t < now {
            Some(now)
        } else {
            Some(t)
        },
        None => Some(now),
    }
}

/// `a` is no earlier than `b` (no time is earlier than any time).
pub open spec fn not_earlier(a: Option<u64>, b: Option<u64>) -> bool {
    match b {
        None => true,
        Some(tb) => match a {
            Some(ta) => tb <= ta,
            None => false,
        },
    }
}

/// No peer is `p` once the peers other than `p` are kept.
pub proof fn lemma_filtered_lacks_peer(s: Seq<Peer>, p: PeerId)
    ensures
        !(RegistryView { peers: s.filter(other_peer(p)), slots: Seq::empty(), max_peers: 0, next_index: 0 }).has_peer(p),
        forall|j: int| 0 <= j < s.filter(other_peer(p)).len() ==> s.filter(other_peer(p))[j].peer_id != p,
{
    assert forall|j: int| 0 <= j < s.filter(other_peer(p)).len() implies s.filter(other_peer(p))[j].peer_id != p by {
        s.lemma_filter_pred(other_peer(p), j);
    }
}

/// Where a slot of `pid` on `p` occurs in `s`, it has a first position.
pub proof fn lemma_first_slot_exists(s: Seq<Slot>, p: PeerId, pid: ProtocolId, k: int)
    requires
        0 <= k < s.len(),
        s[k].peer_id == p && s[k].protocol_id == pid,
    ensures
        exists|j: int| is_first_slot(s, p, pid, j),
    decreases k,
{
    if forall|m: int| 0 <= m < k ==> !(s[m].peer_id == p && s[m].protocol_id == pid) {
        assert(is_first_slot(s, p, pid, k));
    } else {
        let m = choose|m: int| 0 <= m < k && s[m].peer_id == p && s[m].protocol_id == pid;
        lemma_first_slot_exists(s, p, pid, m);
    }
}

/// Binding a free slot of a registered peer leaves the peer registered and the slot `Full`.
pub proof fn lemma_tied_is_full(v: RegistryView, p: PeerId, pid: ProtocolId, e: Endpoint)
    requires
        v.has_peer(p),
        !v.slot_is_full(p, pid),
    ensures
        v.tied(p, pid, e).has_peer(p),
        v.tied(p, pid, e).peer(p) == v.peer(p),
        v.tied(p, pid, e).slot_is_full(p, pid),
{
    let w = v.tied(p, pid, e);
    assert(w.peers == v.peers);
    if v.has_slot(p, pid) {
        let j = v.slot_pos(p, pid);
        assert(is_first_slot(v.slots, p, pid, j));
        assert(is_first_slot(w.slots, p, pid, j));
        let k = w.slot_pos(p, pid);
        assert(is_first_slot(w.slots, p, pid, k));
    } else {
        let n = v.slots.len() as int;
        assert forall|m: int| 0 <= m < n implies !(v.slots[m].peer_id == p
            && v.slots[m].protocol_id == pid) by {
            if v.slots[m].peer_id == p && v.slots[m].protocol_id == pid {
                lemma_first_slot_exists(v.slots, p, pid, m);
            }
        }
        assert(is_first_slot(w.slots, p, pid, n));
        let k = w.slot_pos(p, pid);
        assert(is_first_slot(w.slots, p, pid, k));
    }
}

/// A message from a registered peer keeps it registered and sets its last-message time.
pub proof fn lemma_with_activity(v: RegistryView, p: PeerId, now: u64)
    requires
        v.has_peer(p),
    ensures
        v.with_activity(p, now).has_peer(p),
        v.with_activity(p, now).peer(p) == (Peer {
            last_message_time: activity(v.peer(p).last_message_time, now),
            ..v.peer(p)
        }),
{
    let w = v.with_activity(p, now);
    let j = v.peer_pos(p);
    assert(is_first_peer(v.peers, p, j));
    assert(is_first_peer(w.peers, p, j));
    let k = w.peer_pos(p);
    assert(is_first_peer(w.peers, p, k));
}

/// Removing a peer twice leaves the registry as removing it once does.
pub proof fn lemma_remove_peer_idempotent(v: RegistryView, p: PeerId)
    ensures
        v.without_peer(p).without_peer(p) == v.without_peer(p),
{
    if v.has_peer(p) {
        lemma_filtered_lacks_peer(v.peers, p);
        let w = v.without_peer(p);
        assert(!w.has_peer(p));
    }
}

/// Under messages delivered one after the other, a peer's last-message time
/// never decreases.
pub proof fn lemma_activity_monotone(v: RegistryView, p: PeerId, t1: u64, t2: u64)
    requires
        v.has_peer(p),
    ensures
        not_earlier(v.with_activity(p, t1).peer(p).last_message_time, v.peer(p).last_message_time),
        not_earlier(
            v.with_activity(p, t1).with_activity(p, t2).peer(p).last_message_time,
            v.with_activity(p, t1).peer(p).last_message_time,
        ),
{
    lemma_with_activity(v, p, t1);
    lemma_with_activity(v.with_activity(p, t1), p, t2);
}

impl RegistryView {
    pub open spec fn has_peer(self, p: PeerId) -> bool {
        exists|j: int| is_first_peer(self.peers, p, j)
    }

    pub open spec fn peer_pos(self, p: PeerId) -> int {
        choose|j: int| is_first_peer(self.peers, p, j)
    }

    pub open spec fn peer(self, p: PeerId) -> Peer {
        self.peers[self.peer_pos(p)]
    }

    pub open spec fn has_slot(self, p: PeerId, pid: ProtocolId) -> bool {
        exists|j: int| is_first_slot(self.slots, p, pid, j)
    }

    pub open spec fn slot_pos(self, p: PeerId, pid: ProtocolId) -> int {
        choose|j: int| is_first_slot(self.slots, p, pid, j)
    }

    pub open spec fn slot(self, p: PeerId, pid: ProtocolId) -> Slot {
        self.slots[self.slot_pos(p, pid)]
    }

    pub open spec fn slot_is_full(self, p: PeerId, pid: ProtocolId) -> bool {
        self.has_slot(p, pid) && self.slot(p, pid).state == ConnState::Full
    }

    /// Room for one more peer, with an index left to give it.
    pub open spec fn can_admit(self) -> bool {
        self.peers.len() < self.max_peers && self.next_index < usize::MAX as nat
    }

    /// The registry after claiming the slot of `pid` on `p` from `e`, and the result.
    pub open spec fn claimed(self, p: PeerId, pid: ProtocolId, e: Endpoint) -> (
        RegistryView,
        Result<ConnState, RegistryError>,
    ) {
        let slot = Slot { peer_id: p, protocol_id: pid, endpoint: e, state: ConnState::Empty };
        if self.has_slot(p, pid) {
            (self, Ok(self.slot(p, pid).state))
        } else if self.has_peer(p) {
            (
                RegistryView {
                    peers: self.peers,
                    slots: self.slots.push(slot),
                    max_peers: self.max_peers,
                    next_index: self.next_index,
                },
                Ok(ConnState::Empty),
            )
        } else if self.can_admit() {
            (
                RegistryView {
                    peers: self.peers.push(
                        Peer {
                            peer_id: p,
                            peer_index: self.next_index as usize,
                            last_message_time: None,
                        },
                    ),
                    slots: self.slots.push(slot),
                    max_peers: self.max_peers,
                    next_index: self.next_index + 1,
                },
                Ok(ConnState::Empty),
            )
        } else {
            (self, Err(RegistryError::Unresolvable))
        }
    }

    /// The registry after binding a session of `pid` from `e` to `p`.
    pub open spec fn tied(self, p: PeerId, pid: ProtocolId, e: Endpoint) -> RegistryView {
        if !self.has_peer(p) || self.slot_is_full(p, pid) {
            self
        } else if self.has_slot(p, pid) {
            RegistryView {
                peers: self.peers,
                slots: self.slots.update(
                    self.slot_pos(p, pid),
                    Slot { state: ConnState::Full, ..self.slot(p, pid) },
                ),
                max_peers: self.max_peers,
                next_index: self.next_index,
            }
        } else {
            RegistryView {
                peers: self.peers,
                slots: self.slots.push(
                    Slot { peer_id: p, protocol_id: pid, endpoint: e, state: ConnState::Full },
                ),
                max_peers: self.max_peers,
                next_index: self.next_index,
            }
        }
    }

    /// The registry after a message from `p` at time `now`.
    pub open spec fn with_activity(self, p: PeerId, now: u64) -> RegistryView {
        if self.has_peer(p) {
            RegistryView {
                peers: self.peers.update(
                    self.peer_pos(p),
                    Peer {
                        last_message_time: activity(self.peer(p).last_message_time, now),
                        ..self.peer(p)
                    },
                ),
                slots: self.slots,
                max_peers: self.max_peers,
                next_index: self.next_index,
            }
        } else {
            self
        }
    }

    /// The registry once peer `p` and its slots are gone; unchanged if `p` is absent.
    pub open spec fn without_peer(self, p: PeerId) -> RegistryView {
        if self.has_peer(p) {
            RegistryView {
                peers: self.peers.filter(other_peer(p)),
                slots: self.slots.filter(other_peer_slot(p)),
                max_peers: self.max_peers,
                next_index: self.next_index,
            }
        } else {
            self
        }
    }
}

/// The table of live peers and of the protocol slots claimed on them.
pub struct Registry {
    peers: Vec<Peer>,
    slots: Vec<Slot>,
    max_peers: usize,
    next_index: usize,
}

impl View for Registry {
    type V = RegistryView;

    closed spec fn view(&self) -> RegistryView {
        RegistryView {
            peers: self.peers@,
            slots: self.slots@,
            max_peers: self.max_peers as nat,
            next_index: self.next_index as nat,
        }
    }
}

impl Registry {
    /// An empty registry that admits at most `max_peers` peers.
    pub fn new(max_peers: usize) -> (r: Registry)
        ensures
            r@.peers == Seq::<Peer>::empty(),
            r@.slots == Seq::<Slot>::empty(),
            r@.max_peers == max_peers,
            r@.next_index == 0,
    {
        Registry { peers: Vec::new(), slots: Vec::new(), max_peers, next_index: 0 }
    }

    fn find_peer(&self, p: PeerId) -> (r: Option<usize>)
        ensures
            match r {
                Some(j) => is_first_peer(self@.peers, p, j as int) && self@.has_peer(p)
                    && self@.peer_pos(p) == j,
                None => !self@.has_peer(p) && forall|k: int|
                    0 <= k < self@.peers.len() ==> self@.peers[k].peer_id != p,
            },
    {
        let mut i: usize = 0;
        while i < self.peers.len()
            invariant
                i <= self.peers@.len(),
                forall|k: int| 0 <= k < i ==> self.peers@[k].peer_id != p,
            decreases self.peers@.len() - i,
        {
            if self.peers[i].peer_id == p {
                proof {
                    assert(is_first_peer(self@.peers, p, i as int));
                    let j = self@.peer_pos(p);
                    assert(is_first_peer(self@.peers, p, j));
                }
                return Some(i);
            }
            i += 1;
        }
        None
    }

    fn find_slot(&self, p: PeerId, pid: ProtocolId) -> (r: Option<usize>)
        ensures
            match r {
                Some(j) => is_first_slot(self@.slots, p, pid, j as int) && self@.has_slot(p, pid)
                    && self@.slot_pos(p, pid) == j,
                None => !self@.has_slot(p, pid) && forall|k: int|
                    0 <= k < self@.slots.len() ==> !(self@.slots[k].peer_id == p
                        && self@.slots[k].protocol_id == pid),
            },
    {
        let mut i: usize = 0;
        while i < self.slots.len()
            invariant
                i <= self.slots@.len(),
                forall|k: int|
                    0 <= k < i ==> !(self.slots@[k].peer_id == p && self.slots@[k].protocol_id
                        == pid),
            decreases self.slots@.len() - i,
        {
            if self.slots[i].peer_id == p && self.slots[i].protocol_id == pid {
                proof {
                    assert(is_first_slot(self@.slots, p, pid, i as int));
                    let j = self@.slot_pos(p, pid);
                    assert(is_first_slot(self@.slots, p, pid, j));
                }
                return Some(i);
            }
            i += 1;
        }
        None
    }

    /// The index of peer `p`, or `None` when it is not registered.
    pub fn peer_index_of(&self, p: PeerId) -> (r: Option<PeerIndex>)
        ensures
            r == (if self@.has_peer(p) {
                Some(self@.peer(p).peer_index)
            } else {
                None
            }),
    {
        match self.find_peer(p) {
            Some(j) => Some(self.peers[j].peer_index),
            None => None,
        }
    }

    /// The record of peer `p`, or `None` when it is not registered.
    pub fn peer_record(&self, p: PeerId) -> (r: Option<Peer>)
        ensures
            r == (if self@.has_peer(p) {
                Some(self@.peer(p))
            } else {
                None
            }),
    {
        match self.find_peer(p) {
            Some(j) => Some(self.peers[j]),
            None => None,
        }
    }

    /// The state of the slot of protocol `pid` on peer `p`, if it was claimed.
    pub fn slot_state(&self, p: PeerId, pid: ProtocolId) -> (r: Option<ConnState>)
        ensures
            r == (if self@.has_slot(p, pid) {
                Some(self@.slot(p, pid).state)
            } else {
                None
            }),
    {
        match self.find_slot(p, pid) {
            Some(j) => Some(self.slots[j].state),
            None => None,
        }
    }

    /// Claims the slot of protocol `pid` on peer `p` for a session opened
    /// from `endpoint`, admitting the peer first when it is not registered.
    /// Returns the slot's state; a slot claimed already is left as it is.
    pub fn claim_slot(&mut self, p: PeerId, pid: ProtocolId, endpoint: Endpoint) -> (r: Result<
        ConnState,
        RegistryError,
    >)
        ensures
            (final(self)@, r) == old(self)@.claimed(p, pid, endpoint),
    {
        if let Some(j) = self.find_slot(p, pid) {
            return Ok(self.slots[j].state);
        }
        let new_slot = Slot { peer_id: p, protocol_id: pid, endpoint, state: ConnState::Empty };
        match self.find_peer(p) {
            Some(_) => {
                self.slots.push(new_slot);
                Ok(ConnState::Empty)
            },
            None => {
                if self.peers.len() < self.max_peers && self.next_index < usize::MAX {
                    self.peers.push(
                        Peer { peer_id: p, peer_index: self.next_index, last_message_time: None },
                    );
                    self.slots.push(new_slot);
                    self.next_index = self.next_index + 1;
                    Ok(ConnState::Empty)
                } else {
                    Err(RegistryError::Unresolvable)
                }
            },
        }
    }

    /// Binds a session of protocol `pid` to registered peer `p`: the slot
    /// becomes `Full`. Refused, with nothing changed, when the peer is not
    /// registered or the slot is `Full` already.
    pub fn tie(&mut self, p: PeerId, pid: ProtocolId, endpoint: Endpoint) -> (r: bool)
        ensures
            r == (old(self)@.has_peer(p) && !old(self)@.slot_is_full(p, pid)),
            final(self)@ == old(self)@.tied(p, pid, endpoint),
            r ==> final(self)@.slot_is_full(p, pid),
    {
        if self.find_peer(p).is_none() {
            return false;
        }
        match self.find_slot(p, pid) {
            Some(j) => {
                let s = self.slots[j];
                match s.state {
                    ConnState::Full => false,
                    ConnState::Empty => {
                        self.slots.set(j, Slot { state: ConnState::Full, ..s });
                        proof {
                            assert(is_first_slot(self@.slots, p, pid, j as int));
                            let k = self@.slot_pos(p, pid);
                            assert(is_first_slot(self@.slots, p, pid, k));
                        }
                        true
                    },
                }
            },
            None => {
                let ghost n = self@.slots.len();
                self.slots.push(
                    Slot { peer_id: p, protocol_id: pid, endpoint, state: ConnState::Full },
                );
                proof {
                    assert(is_first_slot(self@.slots, p, pid, n as int));
                    let k = self@.slot_pos(p, pid);
                    assert(is_first_slot(self@.slots, p, pid, k));
                }
                true
            },
        }
    }

    /// Notes a message from peer `p` at time `now`; the peer's last-message
    /// time never moves back. Nothing happens when `p` is not registered.
    pub fn record_activity(&mut self, p: PeerId, now: u64)
        ensures
            final(self)@ == old(self)@.with_activity(p, now),
            old(self)@.has_peer(p) ==> final(self)@.has_peer(p) && final(self)@.peer(p)
                == (Peer {
                last_message_time: activity(old(self)@.peer(p).last_message_time, now),
                ..old(self)@.peer(p)
            }),
            old(self)@.has_peer(p) ==> not_earlier(
                final(self)@.peer(p).last_message_time,
                old(self)@.peer(p).last_message_time,
            ),
    {
        if let Some(j) = self.find_peer(p) {
            let e = self.peers[j];
            let t = match e.last_message_time {
                Some(t) => if t < now {
                    now
                } else {
                    t
                },
                None => now,
            };
            self.peers.set(j, Peer { last_message_time: Some(t), ..e });
            proof {
                assert(is_first_peer(self@.peers, p, j as int));
                let k = self@.peer_pos(p);
                assert(is_first_peer(self@.peers, p, k));
            }
        }
    }

    /// Removes peer `p` with all its slots. Removing an absent peer changes nothing.
    pub fn remove_peer(&mut self, p: PeerId)
        ensures
            final(self)@ == old(self)@.without_peer(p),
            !final(self)@.has_peer(p),
    {
        if self.find_peer(p).is_none() {
            return ;
        }
        let mut peers: Vec<Peer> = Vec::new();
        let mut i: usize = 0;
        while i < self.peers.len()
            invariant
                i <= self.peers@.len(),
                peers@ == self.peers@.subrange(0, i as int).filter(other_peer(p)),
            decreases self.peers@.len() - i,
        {
            let e = self.peers[i];
            proof {
                reveal(Seq::filter);
                assert(self.peers@.subrange(0, i + 1).drop_last() =~= self.peers@.subrange(
                    0,
                    i as int,
                ));
            }
            if e.peer_id != p {
                peers.push(e);
            }
            i += 1;
        }
        proof {
            assert(self.peers@.subrange(0, self.peers@.len() as int) =~= self.peers@);
        }
        let mut slots: Vec<Slot> = Vec::new();
        let mut i: usize = 0;
        while i < self.slots.len()
            invariant
                i <= self.slots@.len(),
                slots@ == self.slots@.subrange(0, i as int).filter(other_peer_slot(p)),
            decreases self.slots@.len() - i,
        {
            let s = self.slots[i];
            proof {
                reveal(Seq::filter);
                assert(self.slots@.subrange(0, i + 1).drop_last() =~= self.slots@.subrange(
                    0,
                    i as int,
                ));
            }
            if s.peer_id != p {
                slots.push(s);
            }
            i += 1;
        }
        proof {
            assert(self.slots@.subrange(0, self.slots@.len() as int) =~= self.slots@);
        }
        let ghost before = self@;
        self.peers = peers;
        self.slots = slots;
        proof {
            lemma_filtered_lacks_peer(before.peers, p);
        }
    }

    /// Number of registered peers.
    pub fn peer_count(&self) -> (r: usize)
        ensures
            r == self@.peers.len(),
    {
        self.peers.len()
    }
}

} // verus!
