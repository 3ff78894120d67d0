use thunder::peer::PeerManager;

#[test]
fn test_add_and_remove_peer() {
    let mut pm = PeerManager::new(10);
    assert!(pm.add_peer("peer1".into(), "/ip4/127.0.0.1/tcp/4001".into()));
    assert_eq!(pm.count(), 1);
    pm.remove_peer("peer1");
    assert_eq!(pm.count(), 0);
}

#[test]
fn test_max_peers() {
    let mut pm = PeerManager::new(2);
    assert!(pm.add_peer("p1".into(), "addr1".into()));
    assert!(pm.add_peer("p2".into(), "addr2".into()));
    assert!(!pm.add_peer("p3".into(), "addr3".into()));
}

#[test]
fn peer_updates() {
    let mut pm = PeerManager::new(3);
    assert!(!pm.is_connected());
    pm.add_peer("a".into(), "x".into());
    pm.update_height("a", 17);
    pm.touch("a");
    pm.update_height("missing", 3);
    let p = pm.get("a").unwrap();
    assert_eq!(p.block_height, 17);
    assert_eq!(p.address, "x");
    assert!(p.last_seen >= p.connected_at);
    assert!(pm.get("missing").is_none());
    assert!(pm.is_connected());
    pm.add_peer("a".into(), "y".into());
    assert_eq!(pm.count(), 1);
    assert_eq!(pm.get("a").unwrap().address, "y");
    assert_eq!(pm.get("a").unwrap().block_height, 0);
    let ids = pm.peer_ids();
    assert_eq!(ids.len(), 1);
    assert_eq!(ids[0], "a");
}

#[test]
fn peer_count_never_exceeds_capacity() {
    let mut pm = PeerManager::new(1);
    assert!(pm.add_peer("a".into(), "x".into()));
    // Full: even a known id is refused, and nothing changes.
    assert!(!pm.add_peer("a".into(), "y".into()));
    assert!(!pm.add_peer("b".into(), "z".into()));
    assert_eq!(pm.count(), 1);
    assert_eq!(pm.get("a").unwrap().address, "x");
    pm.remove_peer("a");
    assert!(pm.add_peer("b".into(), "z".into()));
    assert_eq!(pm.count(), 1);
}
