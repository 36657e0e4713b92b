use ckb_network::{
    Behaviour, CKBService, Callback, Claim, ConnState, Endpoint, Establish, Multiaddr, PeerId,
    Protocol, ProtocolOutput, ServiceError, Session, Status,
};

fn addr(n: u8) -> Multiaddr {
    Multiaddr { bytes: vec![4, 127, 0, 0, n] }
}

fn output(protocol_id: u64, endpoint: Endpoint) -> ProtocolOutput {
    ProtocolOutput { protocol_id, protocol_version: 1, endpoint }
}

fn connected(r: Result<Establish, ServiceError>) -> (Session, Callback) {
    match r {
        Ok(Establish::Connected(s, c)) => (s, c),
        other => panic!("session not bound: {:?}", other),
    }
}

#[test]
fn dial_receive_and_close() {
    let mut svc = CKBService::new(8);
    let b = PeerId::new(2);
    let (session, cb) = connected(svc.handle_protocol_connection(b, output(1, Endpoint::Dialer), addr(1)));
    assert_eq!(cb, Callback::Connected { protocol_id: 1, peer_index: 0 });
    assert_eq!(svc.peer_store().status_of(b), Some(Status::Connected));
    assert_eq!(svc.peer_store().report_count(b, Behaviour::Connect), 1);
    assert_eq!(svc.registry().slot_state(b, 1), Some(ConnState::Full));
    assert!(svc.is_live(&session));

    let mut received = 0;
    for (i, t) in [(1u8, 100u64), (2, 200), (3, 300)] {
        let cb = svc.handle_message(&session, vec![i], t);
        assert_eq!(
            cb,
            Some(Callback::Received { protocol_id: 1, peer_index: 0, data: vec![i] })
        );
        assert_eq!(svc.registry().peer_record(b).unwrap().last_message_time, Some(t));
        received += 1;
    }
    assert_eq!(received, 3);

    let cb = svc.handle_disconnect(&session);
    assert_eq!(cb, Some(Callback::Disconnected { protocol_id: 1, peer_index: 0 }));
    assert_eq!(svc.peer_store().status_of(b), Some(Status::Disconnected));
    assert_eq!(svc.peer_store().report_count(b, Behaviour::UnexpectedDisconnect), 1);
    // the handler sees the peer still registered while its callback runs
    assert_eq!(svc.registry().peer_record(b).unwrap().peer_index, 0);
    assert_eq!(svc.finish_disconnect(&session), vec![]);
    assert_eq!(svc.registry().peer_record(b), None);
    assert_eq!(svc.registry().peer_count(), 0);
    assert_eq!(svc.peer_store().report_count(b, Behaviour::UnexpectedDisconnect), 1);
}

#[test]
fn no_callback_after_disconnect() {
    let mut svc = CKBService::new(8);
    let b = PeerId::new(2);
    let (session, _) = connected(svc.handle_protocol_connection(b, output(1, Endpoint::Dialer), addr(1)));
    assert!(svc.handle_disconnect(&session).is_some());
    assert!(!svc.is_live(&session));
    assert_eq!(svc.handle_message(&session, vec![9], 500), None);
    assert_eq!(svc.handle_disconnect(&session), None);
    svc.finish_disconnect(&session);
    assert_eq!(svc.finish_disconnect(&session), vec![]);
    assert_eq!(svc.peer_store().report_count(b, Behaviour::UnexpectedDisconnect), 1);
}

#[test]
fn simultaneous_dial_and_listen_connect_once() {
    let mut svc = CKBService::new(8);
    let p = PeerId::new(7);
    let a = match svc.claim_session(p, output(1, Endpoint::Dialer), addr(2)) {
        Ok(Claim::Pending(a)) => a,
        other => panic!("{:?}", other),
    };
    let b = match svc.claim_session(p, output(1, Endpoint::Listener), addr(2)) {
        Ok(Claim::Pending(b)) => b,
        other => panic!("{:?}", other),
    };
    let mut callbacks = 0;
    for pending in [a, b] {
        match svc.establish(pending) {
            Ok(Establish::Connected(_, Callback::Connected { .. })) => callbacks += 1,
            Ok(Establish::AlreadyConnected) => {}
            other => panic!("{:?}", other),
        }
    }
    assert_eq!(callbacks, 1);
    assert_eq!(svc.peer_store().report_count(p, Behaviour::Connect), 1);
}

#[test]
fn second_session_on_full_slot_is_dropped() {
    let mut svc = CKBService::new(8);
    let p = PeerId::new(7);
    connected(svc.handle_protocol_connection(p, output(1, Endpoint::Dialer), addr(1)));
    let r = svc.handle_protocol_connection(p, output(1, Endpoint::Listener), addr(1));
    assert_eq!(r, Ok(Establish::AlreadyConnected));
    assert_eq!(svc.claim_session(p, output(1, Endpoint::Listener), addr(2)), Ok(Claim::AlreadyConnected));
    assert_eq!(svc.peer_store().report_count(p, Behaviour::Connect), 1);
    assert_eq!(svc.peer_store().status_of(p), Some(Status::Connected));
}

#[test]
fn peer_evicted_before_binding() {
    let mut svc = CKBService::new(8);
    let p = PeerId::new(3);
    let (first, _) = connected(svc.handle_protocol_connection(p, output(1, Endpoint::Dialer), addr(1)));
    let pending = match svc.claim_session(p, output(2, Endpoint::Dialer), addr(2)) {
        Ok(Claim::Pending(x)) => x,
        other => panic!("{:?}", other),
    };
    svc.handle_disconnect(&first);
    svc.finish_disconnect(&first);
    let connects = svc.peer_store().report_count(p, Behaviour::Connect);
    let drops = svc.peer_store().report_count(p, Behaviour::UnexpectedDisconnect);
    assert_eq!(svc.establish(pending), Err(ServiceError::PeerNotFound));
    assert_eq!(svc.peer_store().report_count(p, Behaviour::Connect), connects);
    assert_eq!(svc.peer_store().report_count(p, Behaviour::UnexpectedDisconnect), drops);
    assert_eq!(svc.peer_store().status_of(p), Some(Status::Disconnected));
}

#[test]
fn full_registry_refuses_session() {
    let mut svc = CKBService::new(0);
    let p = PeerId::new(1);
    assert_eq!(
        svc.handle_protocol_connection(p, output(1, Endpoint::Listener), addr(1)),
        Err(ServiceError::Unresolvable)
    );
    assert_eq!(svc.peer_store().status_of(p), None);
}

#[test]
fn activity_never_moves_back() {
    let mut svc = CKBService::new(8);
    let p = PeerId::new(4);
    let (s, _) = connected(svc.handle_protocol_connection(p, output(1, Endpoint::Dialer), addr(1)));
    svc.handle_message(&s, vec![1], 300);
    svc.handle_message(&s, vec![2], 200);
    assert_eq!(svc.registry().peer_record(p).unwrap().last_message_time, Some(300));
    svc.handle_message(&s, vec![3], 301);
    assert_eq!(svc.registry().peer_record(p).unwrap().last_message_time, Some(301));
}

#[test]
fn forged_session_gets_nothing() {
    let mut svc = CKBService::new(8);
    let p = PeerId::new(4);
    let (s, _) = connected(svc.handle_protocol_connection(p, output(1, Endpoint::Dialer), addr(1)));
    let forged = Session { output: output(9, Endpoint::Dialer), ..s };
    assert!(!svc.is_live(&forged));
    assert_eq!(svc.handle_message(&forged, vec![1], 10), None);
    assert_eq!(svc.handle_disconnect(&forged), None);
    assert_eq!(svc.finish_disconnect(&forged), vec![]);
    assert!(svc.registry().peer_record(p).is_some());
    assert!(svc.is_live(&s));
    assert_eq!(svc.peer_store().status_of(p), Some(Status::Connected));
}

#[test]
fn status_balance_per_session() {
    let mut svc = CKBService::new(8);
    let p = PeerId::new(5);
    for round in 0..3u64 {
        let (s, cb) =
            connected(svc.handle_protocol_connection(p, output(1, Endpoint::Listener), addr(1)));
        assert_eq!(cb, Callback::Connected { protocol_id: 1, peer_index: round as usize });
        assert_eq!(svc.peer_store().status_of(p), Some(Status::Connected));
        svc.handle_disconnect(&s);
        svc.finish_disconnect(&s);
        assert_eq!(svc.peer_store().status_of(p), Some(Status::Disconnected));
    }
    assert_eq!(svc.peer_store().report_count(p, Behaviour::Connect), 3);
    assert_eq!(svc.peer_store().report_count(p, Behaviour::UnexpectedDisconnect), 3);
    assert!(svc.peer_store().is_viable(p, 3));
    assert!(!svc.peer_store().is_viable(p, 2));
}

#[test]
fn other_protocols_are_left_alone() {
    let mut svc = CKBService::new(8);
    assert_eq!(svc.handle(Protocol::Other), Ok(None));
    let p = PeerId::new(6);
    let proto = CKBService::convert_to_protocol(p, addr(6), output(3, Endpoint::Dialer));
    assert_eq!(proto, Protocol::CKBProtocol(output(3, Endpoint::Dialer), p, addr(6)));
    match svc.handle(proto) {
        Ok(Some(Establish::Connected(s, _))) => {
            assert_eq!(s.peer_id, p);
            assert_eq!(s.output.protocol_id, 3);
            assert_eq!(svc.address_of(&s), Some(&addr(6)));
            svc.handle_disconnect(&s);
            assert_eq!(svc.address_of(&s), None);
            svc.finish_disconnect(&s);
        }
        other => panic!("{:?}", other),
    }
}

#[test]
fn removing_peer_ends_its_other_sessions() {
    let mut svc = CKBService::new(8);
    let p = PeerId::new(8);
    let (s1, _) = connected(svc.handle_protocol_connection(p, output(1, Endpoint::Dialer), addr(1)));
    let (s2, _) = connected(svc.handle_protocol_connection(p, output(2, Endpoint::Dialer), addr(1)));
    let q = PeerId::new(9);
    let (s3, _) = connected(svc.handle_protocol_connection(q, output(1, Endpoint::Dialer), addr(3)));
    assert_eq!(svc.handle_disconnect(&s1), Some(Callback::Disconnected { protocol_id: 1, peer_index: 0 }));
    assert_eq!(
        svc.finish_disconnect(&s1),
        vec![Callback::Disconnected { protocol_id: 2, peer_index: 0 }]
    );
    assert!(!svc.is_live(&s2));
    assert!(svc.is_live(&s3));
    assert_eq!(svc.handle_message(&s2, vec![1], 10), None);
    assert_eq!(svc.handle_disconnect(&s2), None);
    assert_eq!(svc.peer_store().report_count(p, Behaviour::Connect), 2);
    assert_eq!(svc.peer_store().report_count(p, Behaviour::UnexpectedDisconnect), 2);
    assert_eq!(svc.peer_store().status_of(p), Some(Status::Disconnected));
    assert_eq!(svc.registry().peer_record(p), None);
    assert_eq!(svc.registry().slot_state(p, 2), None);
    // the pair can be bound afresh, by one session only
    let (s4, _) = connected(svc.handle_protocol_connection(p, output(2, Endpoint::Listener), addr(1)));
    assert_eq!(svc.route(s4.peer_index, 2), Some(s4));
}

#[test]
fn route_finds_open_session() {
    let mut svc = CKBService::new(8);
    let p = PeerId::new(1);
    assert_eq!(svc.route(0, 1), None);
    let (s, _) = connected(svc.handle_protocol_connection(p, output(1, Endpoint::Dialer), addr(1)));
    assert_eq!(svc.route(0, 1), Some(s));
    assert_eq!(svc.route(0, 2), None);
    assert_eq!(svc.route(1, 1), None);
    svc.handle_disconnect(&s);
    assert_eq!(svc.route(0, 1), None);
}
