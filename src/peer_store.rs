use vstd::prelude::*;

use crate::types::PeerId;

verus! {

/// A scored event about a peer.
#[derive(Clone, Copy, Debug, PartialEq, Eq, Structural)]
pub enum Behaviour {
    Connect,
    UnexpectedDisconnect,
}

/// A peer's connectivity.
#[derive(Clone, Copy, Debug, PartialEq, Eq, Structural)]
pub enum Status {
    Connected,
    Disconnected,
}

/// Abstract state of a `PeerStore`: both logs, oldest record first.
pub struct PeerStoreView {
    pub behaviours: Seq<(PeerId, Behaviour)>,
    pub statuses: Seq<(PeerId, Status)>,
}

/// Number of reports of `b` about `p` in `log`.
pub open spec fn report_count(log: Seq<(PeerId, Behaviour)>, p: PeerId, b: Behaviour) -> nat
    decreases log.len(),
{
    if log.len() == 0 {
        0
    } else {
        report_count(log.drop_last(), p, b) + if log.last() == (p, b) {
            1nat
        } else {
            0nat
        }
    }
}

/// `Connected` records of `p` in `log` less its `Disconnected` records.
pub open spec fn status_balance(log: Seq<(PeerId, Status)>, p: PeerId) -> int
    decreases log.len(),
{
    if log.len() == 0 {
        0
    } else {
        status_balance(log.drop_last(), p) + if log.last() == (p, Status::Connected) {
            1int
        } else if log.last() == (p, Status::Disconnected) {
            -1int
        } else {
            0int
        }
    }
}

/// The status last written for `p` in `log`.
pub open spec fn last_status(log: Seq<(PeerId, Status)>, p: PeerId) -> Option<Status>
    decreases log.len(),
{
    if log.len() == 0 {
        None
    } else if log.last().0 == p {
        Some(log.last().1)
    } else {
        last_status(log.drop_last(), p)
    }
}

/// Registry of what is known about peers: every behaviour ever reported and
/// every status written, so that scores and the current status derive from them.
pub struct PeerStore {
    behaviours: Vec<(PeerId, Behaviour)>,
    statuses: Vec<(PeerId, Status)>,
}

impl View for PeerStore {
    type V = PeerStoreView;

    closed spec fn view(&self) -> PeerStoreView {
        PeerStoreView { behaviours: self.behaviours@, statuses: self.statuses@ }
    }
}

impl PeerStore {
    pub fn new() -> (r: PeerStore)
        ensures
            r@.behaviours == Seq::<(PeerId, Behaviour)>::empty(),
            r@.statuses == Seq::<(PeerId, Status)>::empty(),
    {
        PeerStore { behaviours: Vec::new(), statuses: Vec::new() }
    }

    /// Appends a report of `b` about `p`.
    pub fn report(&mut self, p: PeerId, b: Behaviour)
        ensures
            final(self)@.behaviours == old(self)@.behaviours.push((p, b)),
            final(self)@.statuses == old(self)@.statuses,
    {
        self.behaviours.push((p, b));
    }

    /// Writes `s` as the status of `p`; the last write wins.
    pub fn update_status(&mut self, p: PeerId, s: Status)
        ensures
            final(self)@.statuses == old(self)@.statuses.push((p, s)),
            final(self)@.behaviours == old(self)@.behaviours,
    {
        self.statuses.push((p, s));
    }

    /// The current status of `p`, `None` if none was ever written.
    pub fn status_of(&self, p: PeerId) -> (r: Option<Status>)
        ensures
            r == last_status(self@.statuses, p),
    {
        let mut i: usize = self.statuses.len();
        proof {
            assert(self.statuses@.subrange(0, i as int) =~= self.statuses@);
        }
        while i > 0
            invariant
                i <= self.statuses@.len(),
                last_status(self.statuses@, p) == last_status(
                    self.statuses@.subrange(0, i as int),
                    p,
                ),
            decreases i,
        {
            let e = self.statuses[i - 1];
            proof {
                assert(self.statuses@.subrange(0, i as int).drop_last() =~= self.statuses@.subrange(
                    0,
                    i - 1,
                ));
            }
            if e.0 == p {
                return Some(e.1);
            }
            i -= 1;
        }
        None
    }

    /// How many times `b` was reported about `p`.
    pub fn report_count(&self, p: PeerId, b: Behaviour) -> (r: usize)
        ensures
            r == report_count(self@.behaviours, p, b),
    {
        let mut n: usize = 0;
        let mut i: usize = 0;
        while i < self.behaviours.len()
            invariant
                i <= self.behaviours@.len(),
                n <= i,
                n == report_count(self.behaviours@.subrange(0, i as int), p, b),
            decreases self.behaviours@.len() - i,
        {
            let e = self.behaviours[i];
            proof {
                assert(self.behaviours@.subrange(0, i + 1).drop_last() =~= self.behaviours@.subrange(
                    0,
                    i as int,
                ));
            }
            if e.0 == p && e.1 == b {
                n = n + 1;
            }
            i += 1;
        }
        proof {
            assert(self.behaviours@.subrange(0, i as int) =~= self.behaviours@);
        }
        n
    }

    /// Whether `p` is still worth dialing: it ended no more than `tolerance`
    /// sessions unexpectedly.
    pub fn is_viable(&self, p: PeerId, tolerance: usize) -> (r: bool)
        ensures
            r == (report_count(self@.behaviours, p, Behaviour::UnexpectedDisconnect)
                <= tolerance),
    {
        self.report_count(p, Behaviour::UnexpectedDisconnect) <= tolerance
    }
}

} // verus!
