use retransmit_core::cluster_nodes::{
    ClusterNodesSnapshot, EpochSchedule, Peer, SockAddr, SocketAddrSpace,
};
use retransmit_core::engine::{BatchContext, BatchTimings, Retransmitter, SlotLeaders};
use retransmit_core::shred::{Shred, ShredKind};
use retransmit_core::slot_stats::RootDistance;

const NUM_BITS: u64 = 640_007;

fn peer(id: u64, stake: u64) -> Peer {
    Peer {
        id,
        stake,
        shred_version: 7,
        addr: SockAddr { ip: (8 << 24) | (8 << 16) | (4 << 8) | (id as u32 & 0xFF), port: 8000 + id as u16 },
    }
}

/// Nine peers: the leader (id 100, heaviest) plus ids 0..=7 in descending
/// stake. The arrangement is the seeded stake-weighted shuffle, so tests
/// derive tree expectations from the snapshot itself.
fn base_peers() -> Vec<Peer> {
    let mut peers = vec![peer(100, 10_000)];
    for id in 0..8u64 {
        peers.push(peer(id, 5000 - 100 * id));
    }
    peers
}

fn context(root_slot: u64, leaders: Vec<(u64, u64)>, notify: bool, now_ms: u64) -> BatchContext {
    BatchContext {
        root_slot,
        slot_leaders: SlotLeaders { entries: leaders },
        peers: base_peers(),
        local_id: 1,
        shred_version: 7,
        addr_space: SocketAddrSpace { allow_private: false },
        fanout: 3,
        epoch_schedule: EpochSchedule { slots_per_epoch: 100_000 },
        now_ms,
        notify,
        payload_reset_seed: [9; 32],
        id_reset_seed: [10; 32],
    }
}

fn no_timings() -> BatchTimings {
    BatchTimings {
        total_us: 0,
        epoch_fetch_us: 0,
        epoch_cache_update_us: 0,
        turbine_us: 0,
        retransmit_us: 0,
    }
}

fn shred(slot: u64, index: u32, tag: u8) -> Shred {
    Shred { slot, index, kind: ShredKind::Data, payload: vec![tag, (slot & 0xFF) as u8, (index & 0xFF) as u8, 1] }
}

/// The counters a slot entry should show at the given distance.
fn received_sent_at(entry: retransmit_core::slot_stats::RetransmitSlotStats, d: RootDistance) -> (u64, u64) {
    match d {
        RootDistance::Root => (entry.received_root, entry.sent_root),
        RootDistance::FirstLayer => (entry.received_first, entry.sent_first),
        RootDistance::SecondLayer => (entry.received_second, entry.sent_second),
    }
}

#[test]
fn single_shred_fans_out() {
    let mut engine = Retransmitter::new([0xa5; 32], [0x5a; 32], NUM_BITS, 0);
    let ctx = context(2, vec![(10, 100)], false, 0);
    let batch = vec![shred(10, 0, 1)];
    let plan = engine.plan_batch(&batch, &ctx);
    assert_eq!(plan.entries.len(), 1);
    assert_eq!(plan.num_skipped, 0);
    assert_eq!(plan.num_unknown, 0);
    // the tree position and addresses are exactly those of the slot's
    // seeded arrangement (slot 10 falls in epoch 0, leader 100)
    let arrangement = ClusterNodesSnapshot::new_snapshot(&base_peers(), 7, 0, 100);
    let (d, addrs) = arrangement.get_retransmit_addrs(
        100,
        1,
        3,
        SocketAddrSpace { allow_private: false },
    );
    assert_eq!(plan.entries[0].root_distance, d);
    assert_eq!(plan.entries[0].addrs, addrs);
    assert_eq!(engine.stats.num_shreds, 1);
    assert_eq!(engine.stats.num_shreds_skipped, 0);
    let failures = vec![0];
    let outcome = engine.record_batch(&plan, &failures, &no_timings(), 0);
    assert!(outcome.aggregate.is_none());
    assert!(outcome.slot_records.is_empty());
    let entry = engine.stats.slot_stats_peek(10).unwrap();
    let (received, sent) = received_sent_at(entry, d);
    assert_eq!(received, 1);
    assert_eq!(sent, addrs.len() as u64);
    assert_eq!(engine.stats.num_nodes, addrs.len() as u64);
}

#[test]
fn payload_replay_rejected() {
    let mut engine = Retransmitter::new([0xa5; 32], [0x5a; 32], NUM_BITS, 0);
    let ctx = context(2, vec![(10, 100)], false, 0);
    let batch = vec![shred(10, 0, 1), shred(10, 0, 1)];
    let plan = engine.plan_batch(&batch, &ctx);
    assert_eq!(engine.stats.num_shreds, 2);
    assert_eq!(engine.stats.num_shreds_skipped, 1);
    // exactly one scatter send
    assert_eq!(plan.entries.len(), 1);
}

#[test]
fn duplicate_budget_admits_two_payloads() {
    let mut engine = Retransmitter::new([0xa5; 32], [0x5a; 32], NUM_BITS, 0);
    let ctx = context(2, vec![(10, 100)], false, 0);
    // identical shred id, three distinct payloads
    let batch = vec![shred(10, 0, 1), shred(10, 0, 2), shred(10, 0, 3)];
    let plan = engine.plan_batch(&batch, &ctx);
    assert_eq!(plan.entries.len(), 2);
    assert_eq!(plan.num_skipped, 1);
    assert_eq!(engine.stats.num_shreds_skipped, 1);
}

#[test]
fn unknown_leader_skips_shred() {
    let mut engine = Retransmitter::new([0xa5; 32], [0x5a; 32], NUM_BITS, 0);
    let ctx = context(2, vec![], false, 0);
    let batch = vec![shred(11, 0, 1)];
    let plan = engine.plan_batch(&batch, &ctx);
    assert_eq!(plan.entries.len(), 0);
    assert_eq!(plan.num_unknown, 1);
    assert_eq!(engine.stats.unknown_shred_slot_leader, 1);
    let outcome = engine.record_batch(&plan, &vec![], &no_timings(), 0);
    assert!(outcome.slot_records.is_empty());
    // no slot-stats entry was created
    assert!(engine.stats.slot_stats_peek(11).is_none());
    assert_eq!(engine.stats.slot_stats_len(), 0);
}

#[test]
fn first_shred_notified_once_per_slot() {
    let mut engine = Retransmitter::new([0xa5; 32], [0x5a; 32], NUM_BITS, 0);
    let ctx = context(2, vec![(5, 100), (7, 100)], true, 123);
    let batch = vec![shred(5, 0, 1), shred(5, 1, 2), shred(7, 0, 3), shred(5, 2, 4)];
    let plan = engine.plan_batch(&batch, &ctx);
    assert_eq!(plan.notes.len(), 2);
    assert_eq!(plan.notes[0].slot, 5);
    assert_eq!(plan.notes[1].slot, 7);
    assert_eq!(plan.notes[0].timestamp_ms, 123);
}

#[test]
fn stale_slot_not_notified() {
    let mut engine = Retransmitter::new([0xa5; 32], [0x5a; 32], NUM_BITS, 0);
    let ctx = context(10, vec![(4, 100)], true, 0);
    // at or below the root slot: no notification
    let plan = engine.plan_batch(&vec![shred(4, 0, 1), shred(10, 0, 2)], &ctx);
    assert!(plan.notes.is_empty());
}

#[test]
fn lru_eviction_emits_exactly_once() {
    let mut engine = Retransmitter::new([0xa5; 32], [0x5a; 32], NUM_BITS, 0);
    let mut leaders = Vec::new();
    let mut batch = Vec::new();
    for slot in 0..751u64 {
        leaders.push((slot, 100));
        batch.push(shred(slot, 0, (slot % 251) as u8));
    }
    let ctx = context(0, leaders, false, 0);
    let plan = engine.plan_batch(&batch, &ctx);
    assert_eq!(plan.entries.len(), 751);
    let failures = vec![0usize; 751];
    let outcome = engine.record_batch(&plan, &failures, &no_timings(), 0);
    assert_eq!(engine.stats.slot_stats_len(), 750);
    // the earliest-updated slot was evicted and emitted exactly once
    assert_eq!(outcome.slot_records.len(), 1);
    assert_eq!(outcome.slot_records[0].slot, 0);
    assert_eq!(outcome.slot_records[0].num_shreds, 1);
    assert!(engine.stats.slot_stats_peek(0).is_none());
    assert!(engine.stats.slot_stats_peek(1).is_some());
}

#[test]
fn aggregate_submitted_after_cadence_and_counters_reset() {
    let mut engine = Retransmitter::new([0xa5; 32], [0x5a; 32], NUM_BITS, 0);
    let ctx = context(2, vec![(10, 100)], false, 0);
    let plan = engine.plan_batch(&vec![shred(10, 0, 1)], &ctx);
    let n_addrs = plan.entries[0].addrs.len();
    let fail = if n_addrs >= 1 { 1usize } else { 0 };
    let failures = vec![fail];
    let timings = BatchTimings {
        total_us: 50,
        epoch_fetch_us: 5,
        epoch_cache_update_us: 6,
        turbine_us: 7,
        retransmit_us: 8,
    };
    // counters grow monotonically until the window closes
    assert_eq!(engine.stats.num_shreds, 1);
    let outcome = engine.record_batch(&plan, &failures, &timings, 2000);
    let report = outcome.aggregate.expect("cadence elapsed");
    assert_eq!(report.num_shreds, 1);
    assert_eq!(report.num_shreds_skipped, 0);
    assert_eq!(report.total_batches, 1);
    assert_eq!(report.num_nodes, (n_addrs - fail) as u64);
    assert_eq!(report.num_addrs_failed, fail as u64);
    assert_eq!(report.total_time, 50);
    assert_eq!(report.retransmit_total, 8);
    // window reset, ring preserved
    assert_eq!(engine.stats.num_shreds, 0);
    assert_eq!(engine.stats.since_ms, 2000);
    assert!(engine.stats.slot_stats_peek(10).is_some());
}

#[test]
fn max_retransmit_slot_tracks_peak() {
    let mut engine = Retransmitter::new([0xa5; 32], [0x5a; 32], NUM_BITS, 0);
    let ctx = context(2, vec![(10, 100), (90, 100), (40, 100)], false, 0);
    engine.plan_batch(&vec![shred(10, 0, 1), shred(90, 0, 2), shred(40, 0, 3)], &ctx);
    assert_eq!(engine.max_retransmit_slot, 90);
}
