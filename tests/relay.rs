use udp_relay::{PeerAddr, PeerTable, RelayLoop};

fn addr(n: u32) -> PeerAddr {
    PeerAddr::v4(0x7f00_0000 + n, 6000 + n as u16)
}

fn sorted(mut v: Vec<PeerAddr>) -> Vec<PeerAddr> {
    v.sort_by_key(|a| (a.v6, a.ip, a.port, a.flowinfo, a.scope_id));
    v
}

#[test]
fn two_peers_receive_third_peers_datagram() {
    let (a, b, c) = (addr(1), addr(2), addr(3));
    let mut relay = RelayLoop::new(10);
    let ra = relay.on_datagram(a, vec![1], 0);
    assert!(ra.joined);
    assert!(ra.destinations.is_empty());
    let rb = relay.on_datagram(b, vec![2], 1);
    assert!(rb.joined);
    assert_eq!(rb.destinations, vec![a]);
    let rc = relay.on_datagram(c, vec![7, 8, 9], 2);
    assert!(rc.joined);
    assert_eq!(rc.payload, vec![7, 8, 9]);
    assert_eq!(sorted(rc.destinations), sorted(vec![a, b]));
    assert!(rc.removed.is_empty());
    let table = relay.peers();
    assert_eq!(table.len(), 3);
    assert!(table.contains(a) && table.contains(b) && table.contains(c));
}

#[test]
fn silent_peer_is_removed_after_window() {
    let (a, b) = (addr(1), addr(2));
    let mut relay = RelayLoop::new(10);
    relay.on_datagram(a, vec![0], 0);
    let rb = relay.on_datagram(b, vec![5], 11);
    assert!(rb.joined);
    assert_eq!(rb.destinations, vec![a]);
    assert_eq!(rb.removed, vec![a]);
    assert!(!relay.peers().contains(a));
    assert!(relay.peers().contains(b));
    assert_eq!(relay.peers().len(), 1);
}

#[test]
fn fan_out_skips_sender_and_names_each_peer_once() {
    let mut relay = RelayLoop::new(100);
    for n in 1..=5 {
        relay.on_datagram(addr(n), vec![n as u8], n as u64);
    }
    let r = relay.on_datagram(addr(3), vec![42], 10);
    assert!(!r.joined);
    assert_eq!(sorted(r.destinations), vec![addr(1), addr(2), addr(4), addr(5)]);
    let r = relay.on_datagram(addr(9), vec![42], 11);
    assert!(r.joined);
    assert_eq!(r.destinations.len(), 5);
    assert_eq!(sorted(r.destinations), (1..=5).map(addr).collect::<Vec<_>>());
}

#[test]
fn repeated_touch_keeps_count() {
    let mut t = PeerTable::new();
    assert!(t.is_empty());
    assert!(t.touch(addr(1), 3));
    assert!(!t.touch(addr(1), 4));
    assert!(!t.touch(addr(1), 9));
    assert_eq!(t.len(), 1);
    assert_eq!(t.last_seen(addr(1)), Some(9));
    assert!(t.touch(addr(2), 9));
    assert_eq!(t.len(), 2);
    assert_eq!(t.last_seen(addr(2)), Some(9));
    assert_eq!(t.last_seen(addr(3)), None);
}

#[test]
fn join_only_on_first_datagram() {
    let mut relay = RelayLoop::new(10);
    let joins = (0..4u64)
        .map(|t| relay.on_datagram(addr(1), vec![1], t).joined)
        .collect::<Vec<_>>();
    assert_eq!(joins, vec![true, false, false, false]);
}

#[test]
fn expiry_edge_is_strict() {
    let mut t = PeerTable::new();
    t.touch(addr(1), 100);
    assert!(t.sweep(109, 10).is_empty());
    assert!(t.sweep(110, 10).is_empty());
    assert!(t.contains(addr(1)));
    assert_eq!(t.sweep(111, 10), vec![addr(1)]);
    assert!(t.is_empty());
}

#[test]
fn future_timestamp_is_never_swept() {
    let mut t = PeerTable::new();
    t.touch(addr(1), u64::MAX);
    t.touch(addr(2), 0);
    assert_eq!(t.sweep(5, 0), vec![addr(2)]);
    assert!(t.sweep(0, 0).is_empty());
    assert_eq!(t.last_seen(addr(1)), Some(u64::MAX));
}

#[test]
fn sweep_removes_only_stale_peers() {
    let mut t = PeerTable::new();
    for n in 0..6u32 {
        t.touch(addr(n), n as u64 * 10);
    }
    let removed = t.sweep(40, 15);
    assert_eq!(sorted(removed), vec![addr(0), addr(1), addr(2)]);
    assert_eq!(t.len(), 3);
    for n in 3..6u32 {
        assert_eq!(t.last_seen(addr(n)), Some(n as u64 * 10));
    }
}

#[test]
fn all_except_untracked_sender_lists_everyone() {
    let mut t = PeerTable::new();
    t.touch(addr(1), 0);
    t.touch(addr(2), 0);
    assert_eq!(sorted(t.all_except(addr(7))), vec![addr(1), addr(2)]);
    assert_eq!(t.all_except(addr(1)), vec![addr(2)]);
    assert!(PeerTable::new().all_except(addr(1)).is_empty());
}

#[test]
fn payload_is_relayed_verbatim() {
    let mut relay = RelayLoop::new(10);
    relay.on_datagram(addr(1), vec![], 0);
    let bytes: Vec<u8> = (0..=255u8).collect();
    let r = relay.on_datagram(addr(2), bytes.clone(), 0);
    assert_eq!(r.payload, bytes);
    let r = relay.on_datagram(addr(2), vec![], 0);
    assert!(r.payload.is_empty());
    assert_eq!(r.destinations, vec![addr(1)]);
}

#[test]
fn sender_of_current_datagram_survives_its_sweep() {
    let mut relay = RelayLoop::new(0);
    relay.on_datagram(addr(1), vec![1], 5);
    let r = relay.on_datagram(addr(2), vec![1], 7);
    assert_eq!(r.removed, vec![addr(1)]);
    assert!(relay.peers().contains(addr(2)));
    assert_eq!(relay.expiry_window(), 0);
}

#[test]
fn endpoints_differ_by_family_and_port() {
    let a = PeerAddr::v4(0x7f00_0001, 5000);
    let b = PeerAddr::v6(0x7f00_0001, 5000, 0, 0);
    let c = PeerAddr::v4(0x7f00_0001, 5001);
    assert_ne!(a, b);
    assert_ne!(a, c);
    let mut t = PeerTable::new();
    t.touch(a, 1);
    t.touch(b, 1);
    t.touch(c, 1);
    t.touch(PeerAddr::v4(0x7f00_0001, 5000), 2);
    assert_eq!(t.len(), 3);
    assert_eq!(t.last_seen(a), Some(2));
}
