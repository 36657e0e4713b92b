use ckb_network::{Behaviour, Config, PeerId, PeerStore, Status};

#[test]
fn config_keeps_fields() {
    let c = Config::new(500, "Normal".to_string());
    assert_eq!(c.max_tx, 500);
    assert_eq!(c.sealer_type, "Normal");
}

#[test]
fn status_last_write_wins() {
    let mut s = PeerStore::new();
    let a = PeerId::new(1);
    let b = PeerId::new(2);
    assert_eq!(s.status_of(a), None);
    s.update_status(a, Status::Connected);
    s.update_status(b, Status::Connected);
    s.update_status(a, Status::Disconnected);
    assert_eq!(s.status_of(a), Some(Status::Disconnected));
    assert_eq!(s.status_of(b), Some(Status::Connected));
    s.report(a, Behaviour::UnexpectedDisconnect);
    s.report(b, Behaviour::Connect);
    assert_eq!(s.report_count(a, Behaviour::UnexpectedDisconnect), 1);
    assert_eq!(s.report_count(a, Behaviour::Connect), 0);
    assert!(s.is_viable(a, 1));
    assert!(!s.is_viable(a, 0));
}

#[test]
fn peer_book_names_each_identity_once() {
    let mut book = ckb_network::PeerBook::new();
    assert_eq!(book.intern(vec![0xaa, 0x01]), Some(PeerId::new(0)));
    assert_eq!(book.intern(vec![0xbb]), Some(PeerId::new(1)));
    assert_eq!(book.intern(vec![0xaa, 0x01]), Some(PeerId::new(0)));
    assert_eq!(book.intern(vec![0xaa]), Some(PeerId::new(2)));
    assert_eq!(book.intern(vec![]), Some(PeerId::new(3)));
    assert_eq!(book.intern(vec![0xbb]), Some(PeerId::new(1)));
}
