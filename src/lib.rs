//! Peer and protocol-session bookkeeping for a blockchain node's network layer.
//!
//! The library holds the decisions of the protocol layer: the registry of live
//! peers and their protocol slots, the peer store of connection records, and
//! the dispatch service that turns session events into registry updates and
//! handler callbacks. Running the sessions (sockets, tasks, timers) is left to
//! the caller, which feeds events in and performs the callbacks handed back.
pub mod config;
pub mod identity;
pub mod peer_store;
pub mod registry;
pub mod service;
pub mod types;

pub use config::Config;
pub use identity::PeerBook;
pub use peer_store::{Behaviour, PeerStore, Status};
pub use registry::{Peer, Registry, RegistryError, Slot};
pub use service::{
    CKBService, Callback, Claim, Establish, PendingSession, Phase, Protocol, ProtocolOutput, ServiceError, Session,
};
pub use types::{ConnState, Endpoint, Multiaddr, PeerId, PeerIndex, ProtocolId, ProtocolVersion};
