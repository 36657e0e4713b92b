use vstd::prelude::*;

use crate::peer_store::{status_balance, Behaviour, PeerStore, PeerStoreView, Status};
use crate::registry::{not_earlier, Registry, RegistryView};
use crate::types::{ConnState, Endpoint, Multiaddr, PeerId, PeerIndex, ProtocolId, ProtocolVersion};

verus! {

/// What transport negotiation hands over for one session.
#[derive(Clone, Copy, Debug, PartialEq, Eq, Structural)]
pub struct ProtocolOutput {
    pub protocol_id: ProtocolId,
    pub protocol_version: ProtocolVersion,
    pub endpoint: Endpoint,
}

#[derive(Clone, Copy, Debug, PartialEq, Eq, Structural)]
pub enum ServiceError {
    /// The registry could not take the peer.
    Unresolvable,
    /// The peer left the registry before its session was bound.
    PeerNotFound,
}

/// A session whose slot is claimed and which is not bound yet.
#[derive(Clone, Debug, PartialEq, Eq)]
pub struct PendingSession {
    pub peer_id: PeerId,
    pub output: ProtocolOutput,
    pub addr: Multiaddr,
}

/// Outcome of claiming a slot for a negotiated session.
#[derive(Clone, Debug, PartialEq, Eq)]
pub enum Claim {
    /// The slot is bound to another session: this one is dropped.
    AlreadyConnected,
    Pending(PendingSession),
}

/// A session bound to its slot; `ticket` names it within the service.
#[derive(Clone, Copy, Debug, PartialEq, Eq, Structural)]
pub struct Session {
    pub peer_id: PeerId,
    pub output: ProtocolOutput,
    pub peer_index: PeerIndex,
    pub ticket: usize,
}

/// A protocol-handler call that the caller is to schedule.
#[derive(Clone, Debug, PartialEq, Eq)]
pub enum Callback {
    Connected { protocol_id: ProtocolId, peer_index: PeerIndex },
    Received { protocol_id: ProtocolId, peer_index: PeerIndex, data: Vec<u8> },
    Disconnected { protocol_id: ProtocolId, peer_index: PeerIndex },
}

/// A negotiated protocol session, as the transport hands it over.
#[derive(Clone, Debug, PartialEq, Eq)]
pub enum Protocol {
    /// A chain-protocol session with a peer, at the address it was reached on.
    CKBProtocol(ProtocolOutput, PeerId, Multiaddr),
    /// A session of a protocol this service does not handle.
    Other,
}

/// Outcome of binding a pending session.
#[derive(Clone, Debug, PartialEq, Eq)]
pub enum Establish {
    /// Another session bound the slot first: this one ends, with no callback.
    AlreadyConnected,
    /// The session is bound; the `connected` callback is to be scheduled.
    Connected(Session, Callback),
}

/// Where a session stands: open; ended, with its peer still to be removed;
/// or done with.
#[derive(Clone, Copy, Debug, PartialEq, Eq, Structural)]
pub enum Phase {
    Open,
    Closing,
    Closed,
}

/// Abstract state of a `CKBService`. `sessions[t]` is the session with
/// ticket `t`, as it was bound, and its phase; `addrs[t]` is
/// the address of that connection attempt.
pub struct ServiceView {
    pub registry: RegistryView,
    pub peer_store: PeerStoreView,
    pub sessions: Seq<(Session, Phase)>,
    pub addrs: Seq<Multiaddr>,
}

/// Number of open sessions of `p` in `s`.
pub open spec fn open_count(s: Seq<(Session, Phase)>, p: PeerId) -> int
    decreases s.len(),
{
    if s.len() == 0 {
        0
    } else {
        open_count(s.drop_last(), p) + if s.last().1 == Phase::Open && s.last().0.peer_id == p {
            1int
        } else {
            0int
        }
    }
}

impl ServiceView {
    /// Every ticket fits in `usize`, and every peer's `Connected` records,
    /// less its `Disconnected` ones, count its open sessions.
    pub open spec fn wf(self) -> bool {
        &&& self.sessions.len() <= usize::MAX
        &&& self.addrs.len() == self.sessions.len()
        &&& forall|p: PeerId|
            #[trigger] status_balance(self.peer_store.statuses, p) == open_count(self.sessions, p)
    }

    pub open spec fn is_live(self, s: Session) -> bool {
        s.ticket < self.sessions.len() && self.sessions[s.ticket as int] == (s, Phase::Open)
    }

    pub open spec fn is_closed(self, s: Session) -> bool {
        s.ticket < self.sessions.len() && self.sessions[s.ticket as int].0 == s
            && self.sessions[s.ticket as int].1 != Phase::Open
    }

    /// Session `s` has ended and its peer is still to be removed.
    pub open spec fn is_closing(self, s: Session) -> bool {
        s.ticket < self.sessions.len() && self.sessions[s.ticket as int] == (s, Phase::Closing)
    }

    /// A closed session stays closed from `self` to `next`.
    pub open spec fn keeps_closed(self, next: ServiceView) -> bool {
        &&& self.sessions.len() <= next.sessions.len()
        &&& forall|t: int|
            0 <= t < self.sessions.len() && self.sessions[t].1 != Phase::Open ==> (
            #[trigger] next.sessions[t]).0 == self.sessions[t].0 && next.sessions[t].1
                != Phase::Open
    }

    pub open spec fn claimed(self, p: PeerId, out: ProtocolOutput, addr: Multiaddr) -> (
        ServiceView,
        Result<Claim, ServiceError>,
    ) {
        let (reg, c) = self.registry.claimed(p, out.protocol_id, out.endpoint);
        (
            ServiceView {
                registry: reg,
                peer_store: self.peer_store,
                sessions: self.sessions,
                addrs: self.addrs,
            },
            match c {
                Ok(ConnState::Full) => Ok(Claim::AlreadyConnected),
                Ok(ConnState::Empty) => Ok(
                    Claim::Pending(PendingSession { peer_id: p, output: out, addr }),
                ),
                Err(_) => Err(ServiceError::Unresolvable),
            },
        )
    }

    /// `next` and `r` follow from binding `pending` in `self`.
    pub open spec fn established(
        self,
        next: ServiceView,
        pending: PendingSession,
        r: Result<Establish, ServiceError>,
    ) -> bool {
        let p = pending.peer_id;
        let out = pending.output;
        if !self.registry.has_peer(p) {
            r == Err::<Establish, ServiceError>(ServiceError::PeerNotFound) && next == self
        } else if self.registry.slot_is_full(p, out.protocol_id) {
            r == Ok::<Establish, ServiceError>(Establish::AlreadyConnected) && next == self
        } else {
            let idx = self.registry.peer(p).peer_index;
            &&& r == Ok::<Establish, ServiceError>(
                Establish::Connected(
                    Session {
                        peer_id: p,
                        output: out,
                        peer_index: idx,
                        ticket: self.sessions.len() as usize,
                    },
                    Callback::Connected { protocol_id: out.protocol_id, peer_index: idx },
                ),
            )
            &&& next.registry == self.registry.tied(p, out.protocol_id, out.endpoint)
            &&& next.peer_store.behaviours == self.peer_store.behaviours.push((p, Behaviour::Connect))
            &&& next.peer_store.statuses == self.peer_store.statuses.push((p, Status::Connected))
            &&& next.sessions == self.sessions.push(
                (
                    Session {
                        peer_id: p,
                        output: out,
                        peer_index: idx,
                        ticket: self.sessions.len() as usize,
                    },
                    Phase::Open,
                ),
            )
            &&& next.addrs == self.addrs.push(pending.addr)
        }
    }

    /// `next` and `r` follow from handling a session of `out` negotiated with `p`.
    pub open spec fn handled(
        self,
        next: ServiceView,
        p: PeerId,
        out: ProtocolOutput,
        addr: Multiaddr,
        r: Result<Establish, ServiceError>,
    ) -> bool {
        let (mid, c) = self.claimed(p, out, addr);
        match c {
            Err(e) => r == Err::<Establish, ServiceError>(e) && next == mid,
            Ok(Claim::AlreadyConnected) => r == Ok::<Establish, ServiceError>(
                Establish::AlreadyConnected,
            ) && next == mid,
            Ok(Claim::Pending(ps)) => mid.established(next, ps, r),
        }
    }

    /// `next` and `r` follow from the session `s` ending in `self`.
    pub open spec fn terminated(self, next: ServiceView, s: Session, r: Option<Callback>) -> bool {
        let p = s.peer_id;
        if self.is_live(s) {
            &&& r == Some(
                Callback::Disconnected { protocol_id: s.output.protocol_id, peer_index: s.peer_index },
            )
            &&& next.peer_store.behaviours == self.peer_store.behaviours.push(
                (p, Behaviour::UnexpectedDisconnect),
            )
            &&& next.peer_store.statuses == self.peer_store.statuses.push((p, Status::Disconnected))
            &&& next.sessions == self.sessions.update(s.ticket as int, (s, Phase::Closing))
            &&& next.registry == self.registry
            &&& next.addrs == self.addrs
        } else {
            r == None::<Callback> && next == self
        }
    }

    /// `next` and `r` follow from removing the peer of ending session `s`:
    /// the peer leaves the registry, each of its sessions still open is
    /// ended as `terminated` ends one, in ticket order, and every session of
    /// the peer is done with.
    pub open spec fn finished(self, next: ServiceView, s: Session, r: Seq<Callback>) -> bool {
        let p = s.peer_id;
        let k = open_count(self.sessions, p) as nat;
        if self.is_closing(s) {
            &&& r == peer_disconnects(self.sessions, p)
            &&& next.registry == self.registry.without_peer(p)
            &&& next.sessions == self.sessions.map_values(|e: (Session, Phase)| close_peer(e, p))
            &&& next.peer_store.behaviours == self.peer_store.behaviours + repeated(
                (p, Behaviour::UnexpectedDisconnect),
                k,
            )
            &&& next.peer_store.statuses == self.peer_store.statuses + repeated(
                (p, Status::Disconnected),
                k,
            )
            &&& next.addrs == self.addrs
        } else {
            r == Seq::<Callback>::empty() && next == self
        }
    }
}

/// Ticket `t` is the first open session in `s` of protocol `pid` with the
/// peer of index `idx`.
pub open spec fn routes_to(s: Seq<(Session, Phase)>, idx: PeerIndex, pid: ProtocolId, t: int) -> bool {
    &&& 0 <= t < s.len()
    &&& s[t].1 == Phase::Open && s[t].0.peer_index == idx && s[t].0.output.protocol_id == pid
    &&& forall|k: int|
        0 <= k < t ==> !(s[k].1 == Phase::Open && s[k].0.peer_index == idx && s[k].0.output.protocol_id == pid)
}

/// `e`, done with if it is a session of `p`.
pub open spec fn close_peer(e: (Session, Phase), p: PeerId) -> (Session, Phase) {
    if e.0.peer_id == p {
        (e.0, Phase::Closed)
    } else {
        e
    }
}

/// `n` copies of `x`.
pub open spec fn repeated<A>(x: A, n: nat) -> Seq<A> {
    Seq::new(n, |i: int| x)
}

/// The `disconnected` callbacks of the open sessions of `p` in `s`, in ticket order.
pub open spec fn peer_disconnects(s: Seq<(Session, Phase)>, p: PeerId) -> Seq<Callback>
    decreases s.len(),
{
    if s.len() == 0 {
        Seq::empty()
    } else {
        let rest = peer_disconnects(s.drop_last(), p);
        if s.last().1 == Phase::Open && s.last().0.peer_id == p {
            rest.push(
                Callback::Disconnected {
                    protocol_id: s.last().0.output.protocol_id,
                    peer_index: s.last().0.peer_index,
                },
            )
        } else {
            rest
        }
    }
}

pub proof fn lemma_open_count_push(s: Seq<(Session, Phase)>, e: (Session, Phase), p: PeerId)
    ensures
        open_count(s.push(e), p) == open_count(s, p) + if e.1 == Phase::Open && e.0.peer_id == p {
            1int
        } else {
            0int
        },
{
    assert(s.push(e).drop_last() =~= s);
}

pub proof fn lemma_open_count_close(
    s: Seq<(Session, Phase)>,
    t: int,
    q: Session,
    ph: Phase,
    p: PeerId,
)
    requires
        0 <= t < s.len(),
        s[t].0 == q,
        ph != Phase::Open,
    ensures
        open_count(s.update(t, (q, ph)), p) == open_count(s, p) - if s[t].1 == Phase::Open
            && q.peer_id == p {
            1int
        } else {
            0int
        },
    decreases s.len(),
{
    let u = s.update(t, (q, ph));
    if t == s.len() - 1 {
        assert(u.drop_last() =~= s.drop_last());
    } else {
        assert(u.drop_last() =~= s.drop_last().update(t, (q, ph)));
        lemma_open_count_close(s.drop_last(), t, q, ph, p);
    }
}

pub proof fn lemma_status_balance_push(s: Seq<(PeerId, Status)>, e: (PeerId, Status), p: PeerId)
    ensures
        status_balance(s.push(e), p) == status_balance(s, p) + if e == (p, Status::Connected) {
            1int
        } else if e == (p, Status::Disconnected) {
            -1int
        } else {
            0int
        },
{
    assert(s.push(e).drop_last() =~= s);
}

pub proof fn lemma_open_count_nonneg(s: Seq<(Session, Phase)>, p: PeerId)
    ensures
        0 <= open_count(s, p) <= s.len(),
    decreases s.len(),
{
    if s.len() > 0 {
        lemma_open_count_nonneg(s.drop_last(), p);
    }
}

/// Every peer's `Connected` records less its `Disconnected` records count its
/// open sessions: the difference is never negative, and it is at most one
/// while the peer has at most one open session.
pub proof fn lemma_status_balance(v: ServiceView, p: PeerId)
    requires
        v.wf(),
    ensures
        status_balance(v.peer_store.statuses, p) == open_count(v.sessions, p),
        0 <= status_balance(v.peer_store.statuses, p),
        open_count(v.sessions, p) <= 1 ==> status_balance(v.peer_store.statuses, p) <= 1,
{
    assert(status_balance(v.peer_store.statuses, p) == open_count(v.sessions, p));
    lemma_open_count_nonneg(v.sessions, p);
}

/// Of two sessions of one peer and protocol bound one after the other, only
/// the first reaches `Full`; the second ends at once, with no callback and
/// nothing changed.
pub proof fn lemma_duplicate_negotiation(
    v0: ServiceView,
    v1: ServiceView,
    v2: ServiceView,
    a: PendingSession,
    b: PendingSession,
    r1: Result<Establish, ServiceError>,
    r2: Result<Establish, ServiceError>,
)
    requires
        a.peer_id == b.peer_id,
        a.output.protocol_id == b.output.protocol_id,
        v0.established(v1, a, r1),
        v1.established(v2, b, r2),
        r1 matches Ok(Establish::Connected(_, _)),
    ensures
        v1.registry.slot_is_full(a.peer_id, a.output.protocol_id),
        r2 == Ok::<Establish, ServiceError>(Establish::AlreadyConnected),
        v2 == v1,
{
    crate::registry::lemma_tied_is_full(
        v0.registry,
        a.peer_id,
        a.output.protocol_id,
        a.output.endpoint,
    );
}

/// A closed session stays closed through every later step, so no message or
/// end of it is handled again: nothing follows its `disconnected` callback.
pub proof fn lemma_closed_session_stays_closed(v0: ServiceView, v1: ServiceView, s: Session)
    requires
        v0.is_closed(s),
        v0.keeps_closed(v1),
    ensures
        v1.is_closed(s),
        !v1.is_live(s),
{
    assert(v1.sessions[s.ticket as int].0 == s && v1.sessions[s.ticket as int].1 != Phase::Open);
}

/// The dispatch service: it turns the events of negotiated protocol
/// sessions into registry and peer-store updates, and into the handler
/// callbacks the caller is to schedule.
pub struct CKBService {
    registry: Registry,
    peer_store: PeerStore,
    sessions: Vec<(Session, Phase)>,
    addrs: Vec<Multiaddr>,
}

impl View for CKBService {
    type V = ServiceView;

    closed spec fn view(&self) -> ServiceView {
        ServiceView {
            registry: self.registry@,
            peer_store: self.peer_store@,
            sessions: self.sessions@,
            addrs: self.addrs@,
        }
    }
}

impl CKBService {
    /// A service with an empty registry admitting at most `max_peers` peers.
    pub fn new(max_peers: usize) -> (r: CKBService)
        ensures
            r@.wf(),
            r@.registry.peers.len() == 0,
            r@.registry.slots.len() == 0,
            r@.registry.max_peers == max_peers,
            r@.registry.next_index == 0,
            r@.peer_store.behaviours.len() == 0,
            r@.peer_store.statuses.len() == 0,
            r@.sessions.len() == 0,
            r@.addrs.len() == 0,
    {
        CKBService {
            registry: Registry::new(max_peers),
            peer_store: PeerStore::new(),
            sessions: Vec::new(),
            addrs: Vec::new(),
        }
    }

    pub fn registry(&self) -> (r: &Registry)
        ensures
            r@ == self@.registry,
    {
        &self.registry
    }

    pub fn peer_store(&self) -> (r: &PeerStore)
        ensures
            r@ == self@.peer_store,
    {
        &self.peer_store
    }

    /// Whether session `s` is open, so that its events are still handled.
    pub fn is_live(&self, s: &Session) -> (r: bool)
        ensures
            r == self@.is_live(*s),
    {
        s.ticket < self.sessions.len() && self.sessions[s.ticket].0 == *s
            && self.sessions[s.ticket].1 == Phase::Open
    }

    /// The open session that carries protocol `pid` to the peer of index
    /// `idx`, where a message for it goes; `None` when none is open.
    pub fn route(&self, idx: PeerIndex, pid: ProtocolId) -> (r: Option<Session>)
        ensures
            match r {
                Some(x) => exists|t: int|
                    #[trigger] routes_to(self@.sessions, idx, pid, t) && x == self@.sessions[t].0,
                None => forall|t: int|
                    0 <= t < self@.sessions.len() ==> !((#[trigger] self@.sessions[t]).1 == Phase::Open
                        && self@.sessions[t].0.peer_index == idx
                        && self@.sessions[t].0.output.protocol_id == pid),
            },
    {
        let mut i: usize = 0;
        while i < self.sessions.len()
            invariant
                i <= self.sessions@.len(),
                forall|k: int|
                    0 <= k < i ==> !(self.sessions@[k].1 == Phase::Open && self.sessions@[k].0.peer_index == idx
                        && self.sessions@[k].0.output.protocol_id == pid),
            decreases self.sessions@.len() - i,
        {
            let e = self.sessions[i];
            if e.1 == Phase::Open && e.0.peer_index == idx && e.0.output.protocol_id == pid {
                proof {
                    assert(routes_to(self@.sessions, idx, pid, i as int));
                }
                return Some(e.0);
            }
            i += 1;
        }
        None
    }

    /// The address of the connection attempt of open session `s`.
    pub fn address_of(&self, s: &Session) -> (r: Option<&Multiaddr>)
        requires
            self@.wf(),
        ensures
            match r {
                Some(a) => self@.is_live(*s) && *a == self@.addrs[s.ticket as int],
                None => !self@.is_live(*s),
            },
    {
        if self.is_live(s) {
            Some(&self.addrs[s.ticket])
        } else {
            None
        }
    }

    /// Claims the slot for a session of `out` negotiated with `p`. A slot bound
    /// already ends the session; a peer the registry cannot take fails it.
    pub fn claim_session(&mut self, p: PeerId, out: ProtocolOutput, addr: Multiaddr) -> (r: Result<
        Claim,
        ServiceError,
    >)
        requires
            old(self)@.wf(),
        ensures
            (final(self)@, r) == old(self)@.claimed(p, out, addr),
            final(self)@.wf(),
            old(self)@.keeps_closed(final(self)@),
    {
        let c = self.registry.claim_slot(p, out.protocol_id, out.endpoint);
        assert(self@.peer_store == old(self)@.peer_store && self@.sessions == old(self)@.sessions);
        match c {
            Ok(ConnState::Full) => Ok(Claim::AlreadyConnected),
            Ok(ConnState::Empty) => Ok(Claim::Pending(PendingSession { peer_id: p, output: out, addr })),
            Err(_) => Err(ServiceError::Unresolvable),
        }
    }

    /// Binds a pending session: the peer's index is looked up, the slot made
    /// `Full`, `Connect` and `Connected` recorded, and the `connected`
    /// callback handed back. The first session to bind a slot wins.
    pub fn establish(&mut self, pending: PendingSession) -> (r: Result<Establish, ServiceError>)
        requires
            old(self)@.wf(),
        ensures
            old(self)@.established(final(self)@, pending, r),
            r matches Ok(Establish::Connected(s, _)) ==> final(self)@.is_live(s),
            final(self)@.wf(),
            old(self)@.keeps_closed(final(self)@),
    {
        let PendingSession { peer_id: p, output: out, addr } = pending;
        let idx = match self.registry.peer_index_of(p) {
            Some(i) => i,
            None => return Err(ServiceError::PeerNotFound),
        };
        if !self.registry.tie(p, out.protocol_id, out.endpoint) {
            return Ok(Establish::AlreadyConnected);
        }
        let ticket = self.sessions.len();
        let session = Session { peer_id: p, output: out, peer_index: idx, ticket };
        let ghost statuses = self.peer_store@.statuses;
        let ghost sessions = self.sessions@;
        assert(statuses == old(self)@.peer_store.statuses && sessions == old(self)@.sessions);
        self.sessions.push((session, Phase::Open));
        self.addrs.push(addr);
        self.peer_store.report(p, Behaviour::Connect);
        self.peer_store.update_status(p, Status::Connected);
        proof {
            assert forall|q: PeerId|
                #[trigger] status_balance(self.peer_store@.statuses, q) == open_count(
                    self.sessions@,
                    q,
                ) by {
                lemma_status_balance_push(statuses, (p, Status::Connected), q);
                lemma_open_count_push(sessions, (session, Phase::Open), q);
            }
            assert(self.sessions@.len() == self.sessions.len());
        }
        Ok(
            Establish::Connected(
                session,
                Callback::Connected { protocol_id: out.protocol_id, peer_index: idx },
            ),
        )
    }

    /// Handles a session of `out` negotiated with `p`: claims its slot, then
    /// binds it.
    pub fn handle_protocol_connection(
        &mut self,
        p: PeerId,
        out: ProtocolOutput,
        addr: Multiaddr,
    ) -> (r: Result<
        Establish,
        ServiceError,
    >)
        requires
            old(self)@.wf(),
        ensures
            old(self)@.handled(final(self)@, p, out, addr, r),
            r matches Ok(Establish::Connected(s, _)) ==> final(self)@.is_live(s),
            final(self)@.wf(),
            old(self)@.keeps_closed(final(self)@),
    {
        match self.claim_session(p, out, addr) {
            Err(e) => Err(e),
            Ok(Claim::AlreadyConnected) => Ok(Establish::AlreadyConnected),
            Ok(Claim::Pending(ps)) => self.establish(ps),
        }
    }

    /// The session that the transport hands over for `output`, negotiated
    /// with `peer_id` reached at `addr`.
    pub fn convert_to_protocol(peer_id: PeerId, addr: Multiaddr, output: ProtocolOutput) -> (r:
        Protocol)
        ensures
            r == Protocol::CKBProtocol(output, peer_id, addr),
    {
        Protocol::CKBProtocol(output, peer_id, addr)
    }

    /// Handles a negotiated session: a chain-protocol session goes to
    /// `handle_protocol_connection`; any other is left alone.
    pub fn handle(&mut self, protocol: Protocol) -> (r: Result<Option<Establish>, ServiceError>)
        requires
            old(self)@.wf(),
        ensures
            match protocol {
                Protocol::CKBProtocol(out, p, addr) => match r {
                    Ok(Some(e)) => old(self)@.handled(final(self)@, p, out, addr, Ok(e)),
                    Ok(None) => false,
                    Err(e) => old(self)@.handled(final(self)@, p, out, addr, Err(e)),
                },
                Protocol::Other => r == Ok::<Option<Establish>, ServiceError>(None)
                    && final(self)@ == old(self)@,
            },
            r matches Ok(Some(Establish::Connected(s, _))) ==> final(self)@.is_live(s),
            final(self)@.wf(),
            old(self)@.keeps_closed(final(self)@),
    {
        match protocol {
            Protocol::CKBProtocol(out, p, addr) => match self.handle_protocol_connection(
                p,
                out,
                addr,
            ) {
                Ok(e) => Ok(Some(e)),
                Err(e) => Err(e),
            },
            Protocol::Other => Ok(None),
        }
    }

    /// Handles a message received at time `now` on session `s`: the peer's
    /// activity is noted and the `received` callback handed back. A session
    /// that is not open gets nothing.
    pub fn handle_message(&mut self, s: &Session, data: Vec<u8>, now: u64) -> (r: Option<Callback>)
        requires
            old(self)@.wf(),
        ensures
            old(self)@.is_live(*s) ==> r == Some(
                Callback::Received {
                    protocol_id: s.output.protocol_id,
                    peer_index: s.peer_index,
                    data,
                },
            ) && final(self)@ == (ServiceView {
                registry: old(self)@.registry.with_activity(s.peer_id, now),
                ..old(self)@
            }),
            old(self)@.is_live(*s) && old(self)@.registry.has_peer(s.peer_id) ==> not_earlier(
                final(self)@.registry.peer(s.peer_id).last_message_time,
                old(self)@.registry.peer(s.peer_id).last_message_time,
            ),
            !old(self)@.is_live(*s) ==> r == None::<Callback> && final(self)@ == old(self)@,
            final(self)@.wf(),
            old(self)@.keeps_closed(final(self)@),
    {
        if !self.is_live(s) {
            return None;
        }
        self.registry.record_activity(s.peer_id, now);
        Some(
            Callback::Received { protocol_id: s.output.protocol_id, peer_index: s.peer_index, data },
        )
    }

    /// Handles the end of session `s`, whatever ended it: records
    /// `UnexpectedDisconnect` and `Disconnected`, closes the session and hands
    /// back the `disconnected` callback. The registry is left alone: once the
    /// callback has run, `finish_disconnect` removes the peer. A session that
    /// is not open gets nothing.
    pub fn handle_disconnect(&mut self, s: &Session) -> (r: Option<Callback>)
        requires
            old(self)@.wf(),
        ensures
            old(self)@.terminated(final(self)@, *s, r),
            old(self)@.is_live(*s) ==> final(self)@.is_closed(*s),
            final(self)@.wf(),
            old(self)@.keeps_closed(final(self)@),
    {
        if !self.is_live(s) {
            return None;
        }
        let p = s.peer_id;
        let ghost statuses = self.peer_store@.statuses;
        let ghost sessions = self.sessions@;
        assert(statuses == old(self)@.peer_store.statuses && sessions == old(self)@.sessions);
        self.peer_store.report(p, Behaviour::UnexpectedDisconnect);
        self.peer_store.update_status(p, Status::Disconnected);
        self.sessions.set(s.ticket, (*s, Phase::Closing));
        proof {
            assert forall|q: PeerId|
                #[trigger] status_balance(self.peer_store@.statuses, q) == open_count(
                    self.sessions@,
                    q,
                ) by {
                lemma_status_balance_push(statuses, (p, Status::Disconnected), q);
                lemma_open_count_close(sessions, s.ticket as int, *s, Phase::Closing, q);
            }
        }
        Some(Callback::Disconnected { protocol_id: s.output.protocol_id, peer_index: s.peer_index })
    }

    /// Completes the teardown of session `s`, once `handle_disconnect` has
    /// ended it and its callback has run: its peer leaves the registry, and
    /// every other session of that peer still open ends too, with its
    /// records, its `disconnected` callback handed back, in ticket order.
    /// Every session of the peer is then done with, so this acts once: on
    /// any session that is not ending, nothing happens.
    pub fn finish_disconnect(&mut self, s: &Session) -> (r: Vec<Callback>)
        requires
            old(self)@.wf(),
        ensures
            old(self)@.finished(final(self)@, *s, r@),
            final(self)@.wf(),
            old(self)@.keeps_closed(final(self)@),
            old(self)@.is_closing(*s) ==> forall|t: int|
                0 <= t < old(self)@.sessions.len() && old(self)@.sessions[t].0.peer_id
                    == s.peer_id ==> (#[trigger] final(self)@.sessions[t]).1 == Phase::Closed,
    {
        let mut out: Vec<Callback> = Vec::new();
        if !(s.ticket < self.sessions.len() && self.sessions[s.ticket].0 == *s
            && self.sessions[s.ticket].1 == Phase::Closing) {
            return out;
        }
        let p = s.peer_id;
        let ghost s0 = self.sessions@;
        let ghost b0 = self.peer_store@.behaviours;
        let ghost st0 = self.peer_store@.statuses;
        assert(s0 == old(self)@.sessions && st0 == old(self)@.peer_store.statuses);
        let mut i: usize = 0;
        while i < self.sessions.len()
            invariant
                i <= self.sessions@.len(),
                self.sessions@.len() == s0.len(),
                s0.len() <= usize::MAX,
                self.registry@ == old(self)@.registry,
                self.addrs@ == old(self)@.addrs,
                forall|t: int| 0 <= t < i ==> self.sessions@[t] == close_peer(s0[t], p),
                forall|t: int| i <= t < s0.len() ==> self.sessions@[t] == s0[t],
                out@ == peer_disconnects(s0.subrange(0, i as int), p),
                0 <= open_count(s0.subrange(0, i as int), p),
                self.peer_store@.behaviours == b0 + repeated(
                    (p, Behaviour::UnexpectedDisconnect),
                    open_count(s0.subrange(0, i as int), p) as nat,
                ),
                self.peer_store@.statuses == st0 + repeated(
                    (p, Status::Disconnected),
                    open_count(s0.subrange(0, i as int), p) as nat,
                ),
                forall|q: PeerId|
                    #[trigger] status_balance(self.peer_store@.statuses, q) == open_count(
                        self.sessions@,
                        q,
                    ),
            decreases s0.len() - i,
        {
            let e = self.sessions[i];
            proof {
                assert(s0.subrange(0, i + 1).drop_last() =~= s0.subrange(0, i as int));
                assert(s0.subrange(0, i + 1).last() == s0[i as int]);
            }
            if e.1 == Phase::Open && e.0.peer_id == p {
                let ghost n = open_count(s0.subrange(0, i as int), p) as nat;
                let ghost bs = self.peer_store@.behaviours;
                let ghost sts = self.peer_store@.statuses;
                let ghost ss = self.sessions@;
                self.peer_store.report(p, Behaviour::UnexpectedDisconnect);
                self.peer_store.update_status(p, Status::Disconnected);
                self.sessions.set(i, (e.0, Phase::Closed));
                out.push(
                    Callback::Disconnected {
                        protocol_id: e.0.output.protocol_id,
                        peer_index: e.0.peer_index,
                    },
                );
                proof {
                    assert forall|q: PeerId|
                        #[trigger] status_balance(self.peer_store@.statuses, q) == open_count(
                            self.sessions@,
                            q,
                        ) by {
                        assert(status_balance(sts, q) == open_count(ss, q));
                        lemma_status_balance_push(sts, (p, Status::Disconnected), q);
                        lemma_open_count_close(ss, i as int, e.0, Phase::Closed, q);
                    }
                    assert(self.peer_store@.behaviours =~= b0 + repeated(
                        (p, Behaviour::UnexpectedDisconnect),
                        n + 1,
                    ));
                    assert(self.peer_store@.statuses =~= st0 + repeated(
                        (p, Status::Disconnected),
                        n + 1,
                    ));
                }
            } else if e.0.peer_id == p {
                let ghost ss = self.sessions@;
                self.sessions.set(i, (e.0, Phase::Closed));
                proof {
                    assert forall|q: PeerId|
                        #[trigger] status_balance(self.peer_store@.statuses, q) == open_count(
                            self.sessions@,
                            q,
                        ) by {
                        assert(status_balance(self.peer_store@.statuses, q) == open_count(ss, q));
                        lemma_open_count_close(ss, i as int, e.0, Phase::Closed, q);
                    }
                }
            }
            i += 1;
        }
        proof {
            assert(s0.subrange(0, s0.len() as int) =~= s0);
            assert(self.sessions@ =~= s0.map_values(|e: (Session, Phase)| close_peer(e, p)));
        }
        let ghost before = self@;
        self.registry.remove_peer(p);
        proof {
            assert(self@.peer_store == before.peer_store && self@.sessions == before.sessions);
        }
        out
    }
}

} // verus!
