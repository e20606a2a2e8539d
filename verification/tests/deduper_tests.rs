use retransmit_core::deduper::{ShredDeduper, MAX_DUPLICATE_COUNT};
use retransmit_core::shred::{Shred, ShredId, ShredKind};

fn data_shred(slot: u64, index: u32, parent_offset: u8) -> Shred {
    Shred { slot, index, kind: ShredKind::Data, payload: vec![1, parent_offset, 0x40, 7] }
}

fn coding_shred(slot: u64, index: u32, position: u8) -> Shred {
    Shred { slot, index, kind: ShredKind::Code, payload: vec![2, position, 0x40, 9] }
}

#[test]
fn test_already_received() {
    let slot = 1;
    let index = 5;
    let mut deduper = ShredDeduper::new([0xa5; 32], [0x5a; 32], 640_007, 0);
    let shred = data_shred(slot, index, 0);
    // unique shred for (1, 5) should pass
    assert!(!deduper.dedup(&shred, MAX_DUPLICATE_COUNT));
    // duplicate shred for (1, 5) blocked
    assert!(deduper.dedup(&shred, MAX_DUPLICATE_COUNT));

    let shred = data_shred(slot, index, 2);
    // first duplicate shred for (1, 5) passed
    assert!(!deduper.dedup(&shred, MAX_DUPLICATE_COUNT));
    // then blocked
    assert!(deduper.dedup(&shred, MAX_DUPLICATE_COUNT));

    let shred = data_shred(slot, index, 8);
    // 2nd duplicate shred for (1, 5) blocked
    assert!(deduper.dedup(&shred, MAX_DUPLICATE_COUNT));
    assert!(deduper.dedup(&shred, MAX_DUPLICATE_COUNT));

    let shred = coding_shred(slot, index, 0);
    // Coding at (1, 5) passes
    assert!(!deduper.dedup(&shred, MAX_DUPLICATE_COUNT));
    // then blocked
    assert!(deduper.dedup(&shred, MAX_DUPLICATE_COUNT));

    let shred = coding_shred(slot, index, 2);
    // 2nd unique coding at (1, 5) passes
    assert!(!deduper.dedup(&shred, MAX_DUPLICATE_COUNT));
    // same again is blocked
    assert!(deduper.dedup(&shred, MAX_DUPLICATE_COUNT));

    let shred = coding_shred(slot, index, 3);
    // Another unique coding at (1, 5) always blocked
    assert!(deduper.dedup(&shred, MAX_DUPLICATE_COUNT));
    assert!(deduper.dedup(&shred, MAX_DUPLICATE_COUNT));
}

#[test]
fn exact_replay_rejected_pairwise() {
    let mut deduper = ShredDeduper::new([7; 32], [8; 32], 640_007, 0);
    for k in 0..20u8 {
        let shred = Shred {
            slot: 3 + k as u64,
            index: 11,
            kind: ShredKind::Data,
            payload: vec![k, k, 1],
        };
        assert!(!deduper.dedup(&shred, MAX_DUPLICATE_COUNT));
        assert!(deduper.dedup(&shred, MAX_DUPLICATE_COUNT));
    }
}

#[test]
fn distinct_positions_do_not_interfere() {
    let mut deduper = ShredDeduper::new([3; 32], [4; 32], 640_007, 0);
    let a = data_shred(9, 1, 0);
    let b = data_shred(9, 2, 0);
    // Same payload bytes would collide in the payload filter, so vary them.
    let b = Shred { payload: vec![1, 0, 0x40, 8], ..b };
    assert!(!deduper.dedup(&a, MAX_DUPLICATE_COUNT));
    assert!(!deduper.dedup(&b, MAX_DUPLICATE_COUNT));
}

#[test]
fn saturated_filter_resets_after_cycle() {
    // A tiny filter saturates after a handful of elements; once the reset
    // cycle has elapsed too, maybe_reset rebuilds it and forgets them.
    let mut deduper = ShredDeduper::new([1; 32], [2; 32], 1000, 0);
    for k in 0..40u8 {
        let shred = Shred { slot: k as u64, index: 0, kind: ShredKind::Data, payload: vec![k, 5] };
        deduper.dedup(&shred, MAX_DUPLICATE_COUNT);
    }
    let probe = Shred { slot: 0, index: 0, kind: ShredKind::Data, payload: vec![0, 5] };
    assert!(deduper.dedup(&probe, MAX_DUPLICATE_COUNT));
    deduper.maybe_reset([5; 32], [6; 32], 400_000, 300_000);
    // Fresh filters: the old payload is unknown again.
    assert!(!deduper.dedup(&probe, MAX_DUPLICATE_COUNT));
}

#[test]
fn reset_skipped_before_cycle_elapses() {
    let mut deduper = ShredDeduper::new([1; 32], [2; 32], 1000, 0);
    for k in 0..40u8 {
        let shred = Shred { slot: k as u64, index: 0, kind: ShredKind::Data, payload: vec![k, 6] };
        deduper.dedup(&shred, MAX_DUPLICATE_COUNT);
    }
    let probe = Shred { slot: 0, index: 0, kind: ShredKind::Data, payload: vec![0, 6] };
    // Saturated, but the cycle has not elapsed: still remembered.
    deduper.maybe_reset([5; 32], [6; 32], 100_000, 300_000);
    assert!(deduper.dedup(&probe, MAX_DUPLICATE_COUNT));
}

#[test]
fn shred_id_carries_position() {
    let shred = data_shred(42, 17, 0);
    assert_eq!(
        shred.id(),
        ShredId { slot: 42, index: 17, kind: ShredKind::Data }
    );
}
