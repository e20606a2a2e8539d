use retransmit_core::cluster_nodes::{
    ClusterNodesCache, ClusterNodesSnapshot, EpochSchedule, Peer, SockAddr, SocketAddrSpace,
    is_valid_address,
};
use retransmit_core::first_shred::FirstShredTracker;
use retransmit_core::slot_stats::{merge, RetransmitSlotStats, RootDistance, SlotStatsMap};

fn addr(ip: [u8; 4], port: u16) -> SockAddr {
    SockAddr {
        ip: ((ip[0] as u32) << 24) | ((ip[1] as u32) << 16) | ((ip[2] as u32) << 8) | ip[3] as u32,
        port,
    }
}

fn peer(id: u64, stake: u64, version: u16) -> Peer {
    Peer { id, stake, shred_version: version, addr: addr([8, 8, 0, id as u8], 9000) }
}

#[test]
fn address_policy_filters_special_ranges() {
    let public_space = SocketAddrSpace { allow_private: false };
    let open_space = SocketAddrSpace { allow_private: true };
    assert!(is_valid_address(addr([8, 8, 8, 8], 53), public_space));
    assert!(!is_valid_address(addr([8, 8, 8, 8], 0), public_space));
    assert!(!is_valid_address(addr([0, 0, 0, 0], 53), public_space));
    assert!(!is_valid_address(addr([127, 0, 0, 1], 53), public_space));
    assert!(!is_valid_address(addr([10, 1, 2, 3], 53), public_space));
    assert!(!is_valid_address(addr([172, 16, 0, 1], 53), public_space));
    assert!(!is_valid_address(addr([192, 168, 1, 1], 53), public_space));
    assert!(is_valid_address(addr([172, 15, 0, 1], 53), public_space));
    assert!(is_valid_address(addr([127, 0, 0, 1], 53), open_space));
    assert!(is_valid_address(addr([192, 168, 1, 1], 53), open_space));
}

#[test]
fn snapshot_permutes_matching_peers_deterministically() {
    let peers = vec![
        peer(4, 100, 7),
        peer(2, 900, 7),
        peer(9, 500, 8),
        peer(1, 900, 7),
        peer(3, 700, 7),
    ];
    let snapshot = ClusterNodesSnapshot::new_snapshot(&peers, 7, 3, 42);
    let mut ids: Vec<u64> = snapshot.nodes.iter().map(|p| p.id).collect();
    ids.sort();
    // a permutation of the version-matching peers; the version-8 peer is dropped
    assert_eq!(ids, vec![1, 2, 3, 4]);
    // the shuffle is deterministic in (epoch, slot leader, membership)
    let again = ClusterNodesSnapshot::new_snapshot(&peers, 7, 3, 42);
    let order: Vec<u64> = snapshot.nodes.iter().map(|p| p.id).collect();
    let order_again: Vec<u64> = again.nodes.iter().map(|p| p.id).collect();
    assert_eq!(order, order_again);
    // and it does shuffle: this seed does not keep the membership order
    assert_ne!(order, vec![4, 2, 1, 3]);
}

#[test]
fn leaf_receives_no_addresses() {
    // fanout 1: the tree is a chain; index 2 and beyond are leaves. The
    // leader id is absent from the peers, so the arrangement is the tree.
    let peers = vec![peer(0, 900, 7), peer(1, 800, 7), peer(2, 700, 7), peer(3, 600, 7)];
    let snapshot = ClusterNodesSnapshot::new_snapshot(&peers, 7, 0, 99);
    let local = snapshot.nodes[2].id;
    let (d, addrs) = snapshot.get_retransmit_addrs(99, local, 1, SocketAddrSpace { allow_private: false });
    assert_eq!(d, RootDistance::SecondLayer);
    assert!(addrs.is_empty());
}

#[test]
fn root_sends_to_first_layer() {
    let peers = vec![peer(0, 900, 7), peer(1, 800, 7), peer(2, 700, 7), peer(3, 600, 7)];
    let snapshot = ClusterNodesSnapshot::new_snapshot(&peers, 7, 0, 99);
    // the node arranged first is the root; its children are the next fanout nodes
    let local = snapshot.nodes[0].id;
    let (d, addrs) = snapshot.get_retransmit_addrs(99, local, 2, SocketAddrSpace { allow_private: false });
    assert_eq!(d, RootDistance::Root);
    assert_eq!(addrs.len(), 2);
    assert_eq!(addrs[0], snapshot.nodes[1].addr);
    assert_eq!(addrs[1], snapshot.nodes[2].addr);
}

#[test]
fn cache_serves_fresh_entry_and_recomputes_stale() {
    let schedule = EpochSchedule { slots_per_epoch: 32 };
    let mut cache = ClusterNodesCache::new(8, 5000);
    let peers_before = vec![peer(0, 900, 7), peer(1, 800, 7)];
    let first = cache.get(10, 0, 0, &peers_before, 7, &schedule);
    assert_eq!(first.nodes.len(), 2);
    // membership changes, but the cached epoch entry is still fresh
    let peers_after = vec![peer(0, 900, 7), peer(1, 800, 7), peer(2, 700, 7)];
    let cached = cache.get(11, 0, 4000, &peers_after, 7, &schedule);
    assert_eq!(cached.nodes.len(), 2);
    // past the TTL the entry is recomputed from current membership
    let refreshed = cache.get(11, 0, 6000, &peers_after, 7, &schedule);
    assert_eq!(refreshed.nodes.len(), 3);
}

#[test]
fn cache_keeps_at_most_the_epoch_cap() {
    let schedule = EpochSchedule { slots_per_epoch: 1 };
    let mut cache = ClusterNodesCache::new(8, 5000);
    let peers = vec![peer(0, 900, 7)];
    for slot in 0..20u64 {
        let _ = cache.get(slot, 0, 0, &peers, 7, &schedule);
        assert!(cache.entries.len() <= 8);
    }
    assert_eq!(cache.entries.len(), 8);
}

#[test]
fn tracker_prunes_to_slots_above_root() {
    let mut tracker = FirstShredTracker::new();
    for slot in 3..104u64 {
        assert!(tracker.observe(slot, 2));
    }
    // known slots stay known: the prune at the threshold kept them
    assert!(!tracker.observe(3, 2));
    // a later insertion prunes to slots above the new root
    assert!(tracker.observe(200, 150));
    // slot 60 was dropped by that prune, so it reads as novel again
    assert!(tracker.observe(60, 50));
    // stale slots are never novel
    assert!(!tracker.observe(50, 50));
}

#[test]
fn slot_stats_record_and_merge_laws() {
    let mut a = RetransmitSlotStats::zeroed();
    a.record(100, RootDistance::FirstLayer, 3);
    a.record(90, RootDistance::FirstLayer, 2);
    assert_eq!(a.outset, 90);
    assert_eq!(a.asof, 100);
    assert_eq!(a.received_first, 2);
    assert_eq!(a.sent_first, 5);

    let mut b = RetransmitSlotStats::zeroed();
    b.record(300, RootDistance::Root, 4);
    b.add_assign(a);
    // min of non-zero outsets, max asof, counters added pointwise
    assert_eq!(b.outset, 90);
    assert_eq!(b.asof, 300);
    assert_eq!(b.received_root, 1);
    assert_eq!(b.received_first, 2);
    assert_eq!(b.sent_root, 4);
    assert_eq!(b.sent_first, 5);

    // a zero outset on either side never wins
    let mut c = RetransmitSlotStats::zeroed();
    c.add_assign(b);
    assert_eq!(c.outset, 90);

    let record = c.submit(77);
    assert_eq!(record.slot, 77);
    assert_eq!(record.outset_timestamp, 90);
    assert_eq!(record.elapsed_millis, 210);
    assert_eq!(record.num_shreds, 3);
    assert_eq!(record.num_nodes, 9);
    assert_eq!(record.num_shreds_received_first, 2);
}

#[test]
fn partial_fold_maps_merge_pointwise() {
    let mut a = SlotStatsMap::new();
    a.record_into(5, 100, RootDistance::Root, 2);
    let mut b = SlotStatsMap::new();
    b.record_into(5, 200, RootDistance::Root, 3);
    b.record_into(6, 150, RootDistance::FirstLayer, 1);
    let m = merge(a, b);
    assert_eq!(m.len(), 2);
    let e5 = m.entries.iter().find(|e| e.0 == 5).expect("slot 5").1;
    assert_eq!(e5.received_root, 2);
    assert_eq!(e5.sent_root, 5);
    assert_eq!(e5.outset, 100);
    assert_eq!(e5.asof, 200);
    let e6 = m.entries.iter().find(|e| e.0 == 6).expect("slot 6").1;
    assert_eq!(e6.received_first, 1);
}
