use ckb_network::{ConnState, Endpoint, PeerId, Registry, RegistryError};

#[test]
fn claim_admits_and_indexes_peers() {
    let mut r = Registry::new(2);
    let a = PeerId::new(10);
    let b = PeerId::new(11);
    assert_eq!(r.claim_slot(a, 1, Endpoint::Dialer), Ok(ConnState::Empty));
    assert_eq!(r.claim_slot(b, 1, Endpoint::Listener), Ok(ConnState::Empty));
    assert_eq!(r.peer_index_of(a), Some(0));
    assert_eq!(r.peer_index_of(b), Some(1));
    assert_eq!(r.claim_slot(PeerId::new(12), 1, Endpoint::Dialer), Err(RegistryError::Unresolvable));
    assert_eq!(r.claim_slot(a, 2, Endpoint::Dialer), Ok(ConnState::Empty));
    assert_eq!(r.peer_count(), 2);
}

#[test]
fn tie_fills_slot_once() {
    let mut r = Registry::new(4);
    let a = PeerId::new(1);
    assert!(!r.tie(a, 1, Endpoint::Dialer));
    r.claim_slot(a, 1, Endpoint::Dialer).unwrap();
    assert!(r.tie(a, 1, Endpoint::Dialer));
    assert!(!r.tie(a, 1, Endpoint::Listener));
    assert_eq!(r.claim_slot(a, 1, Endpoint::Listener), Ok(ConnState::Full));
    assert_eq!(r.slot_state(a, 1), Some(ConnState::Full));
}

#[test]
fn remove_peer_twice_is_remove_once() {
    let mut r = Registry::new(4);
    let a = PeerId::new(1);
    let b = PeerId::new(2);
    r.claim_slot(a, 1, Endpoint::Dialer).unwrap();
    r.claim_slot(b, 1, Endpoint::Dialer).unwrap();
    r.remove_peer(a);
    let after_once = (r.peer_count(), r.peer_record(a), r.peer_record(b), r.slot_state(a, 1), r.slot_state(b, 1));
    r.remove_peer(a);
    let after_twice = (r.peer_count(), r.peer_record(a), r.peer_record(b), r.slot_state(a, 1), r.slot_state(b, 1));
    assert_eq!(after_once, after_twice);
    assert_eq!(after_once.0, 1);
    assert_eq!(after_once.1, None);
    assert_eq!(after_once.3, None);
    r.remove_peer(PeerId::new(99));
    assert_eq!(r.peer_count(), 1);
}

#[test]
fn activity_of_unknown_peer_is_ignored() {
    let mut r = Registry::new(4);
    let a = PeerId::new(1);
    r.record_activity(a, 50);
    assert_eq!(r.peer_record(a), None);
    r.claim_slot(a, 1, Endpoint::Dialer).unwrap();
    assert_eq!(r.peer_record(a).unwrap().last_message_time, None);
    r.record_activity(a, 50);
    r.record_activity(a, 40);
    assert_eq!(r.peer_record(a).unwrap().last_message_time, Some(50));
}
