use vstd::prelude::*;

verus! {

/// Identifier of a chain protocol running over a connection.
pub type ProtocolId = u64;

/// Version of a chain protocol, fixed for the life of a session.
pub type ProtocolVersion = u8;

/// Compact handle of a registered peer, handed to protocol handlers.
pub type PeerIndex = usize;

/// Stable identity of a remote node.
#[derive(Clone, Copy, Debug, PartialEq, Eq, Structural, Hash)]
pub struct PeerId {
    pub id: u64,
}

impl PeerId {
    pub fn new(id: u64) -> (r: PeerId)
        ensures
            r.id == id,
    {
        PeerId { id }
    }
}

/// Transport address of a peer, as the bytes of its encoding.
#[derive(Clone, Debug, PartialEq, Eq, Hash)]
pub struct Multiaddr {
    pub bytes: Vec<u8>,
}

/// Which side established a connection.
#[derive(Clone, Copy, Debug, PartialEq, Eq, Structural)]
pub enum Endpoint {
    Dialer,
    Listener,
}

/// State of a protocol slot: free, or bound to one running session.
#[derive(Clone, Copy, Debug, PartialEq, Eq, Structural)]
pub enum ConnState {
    Empty,
    Full,
}

} // verus!
