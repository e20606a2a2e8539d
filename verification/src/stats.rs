use vstd::prelude::*;
use crate::ring::{
    SlotStatsRing, ring_map, ring_order, ring_wf, ring_new, ring_len, ring_peek, ring_put,
    ring_pop_lru, empty_slot_map,
};
use crate::slot_stats::{
    RetransmitSlotStats, SlotStatsMap, SlotStatsRecord, spec_merged_maps, spec_submit_record,
};

verus! {

/// Capacity of the slot-stats ring: entries beyond it are popped in LRU
/// order and emitted.
pub const SLOT_STATS_CAPACITY: usize = 750;

/// Cadence of the aggregate metrics emission, in milliseconds.
pub const SUBMIT_CADENCE_MS: u64 = 2000;

/// Recency order after folding every feed entry in turn: each folded key
/// moves to the most-recent end.
pub open spec fn upserted_order(order: Seq<u64>, feed: Seq<(u64, RetransmitSlotStats)>) -> Seq<u64>
    decreases feed.len(),
{
    if feed.len() == 0 {
        order
    } else {
        upserted_order(order, feed.drop_last()).remove_value(feed.last().0).push(feed.last().0)
    }
}

/// How many entries the ring must shed to return to capacity.
pub open spec fn spec_evict_count(o: Seq<u64>) -> int {
    if o.len() > SLOT_STATS_CAPACITY {
        o.len() - SLOT_STATS_CAPACITY
    } else {
        0
    }
}

/// The aggregate counters emitted once per submit window.
#[derive(Clone, Copy, PartialEq, Eq, Structural, Debug)]
pub struct AggregateReport {
    pub total_time: u64,
    pub epoch_fetch: u64,
    pub epoch_cache_update: u64,
    pub total_batches: u64,
    pub num_nodes: u64,
    pub num_addrs_failed: u64,
    pub num_shreds: u64,
    pub num_shreds_skipped: u64,
    pub retransmit_total: u64,
    pub compute_turbine_peers_total: u64,
    pub unknown_shred_slot_leader: u64,
}

/// Aggregate retransmit counters over one submit window, plus the per-slot
/// ring, which outlives the window.
pub struct RetransmitStats {
    pub since_ms: u64,
    pub num_nodes: u64,
    pub num_addrs_failed: u64,
    pub num_shreds: u64,
    pub num_shreds_skipped: u64,
    pub total_batches: u64,
    pub total_time: u64,
    pub epoch_fetch: u64,
    pub epoch_cache_update: u64,
    pub retransmit_total: u64,
    pub compute_turbine_peers_total: u64,
    pub unknown_shred_slot_leader: u64,
    pub slot_stats: SlotStatsRing,
}

/// Stats monotonicity within a submit window: batch planning and
/// accounting only ever advance `num_shreds`, `num_shreds_skipped` and
/// `retransmit_total` by saturating addition, which never decreases them;
/// only the aggregate submission resets them, and the emitted report
/// carries their final values.
pub proof fn lemma_stats_monotone_within_window(
    pre: RetransmitStats,
    post: RetransmitStats,
    shreds_delta: u64,
    skipped_delta: u64,
    retransmit_delta: u64,
)
    requires
        post.num_shreds == crate::slot_stats::sat_add(pre.num_shreds, shreds_delta),
        post.num_shreds_skipped == crate::slot_stats::sat_add(
            pre.num_shreds_skipped,
            skipped_delta,
        ),
        post.retransmit_total == crate::slot_stats::sat_add(
            pre.retransmit_total,
            retransmit_delta,
        ),
    ensures
        post.num_shreds >= pre.num_shreds,
        post.num_shreds_skipped >= pre.num_shreds_skipped,
        post.retransmit_total >= pre.retransmit_total,
{
}

/// All fields except the ring agree.
pub open spec fn counters_eq(a: RetransmitStats, b: RetransmitStats) -> bool {
    &&& a.since_ms == b.since_ms
    &&& a.num_nodes == b.num_nodes
    &&& a.num_addrs_failed == b.num_addrs_failed
    &&& a.num_shreds == b.num_shreds
    &&& a.num_shreds_skipped == b.num_shreds_skipped
    &&& a.total_batches == b.total_batches
    &&& a.total_time == b.total_time
    &&& a.epoch_fetch == b.epoch_fetch
    &&& a.epoch_cache_update == b.epoch_cache_update
    &&& a.retransmit_total == b.retransmit_total
    &&& a.compute_turbine_peers_total == b.compute_turbine_peers_total
    &&& a.unknown_shred_slot_leader == b.unknown_shred_slot_leader
}

impl RetransmitStats {
    pub open spec fn wf(self) -> bool {
        ring_wf(self.slot_stats)
    }

    pub open spec fn spec_report(self) -> AggregateReport {
        AggregateReport {
            total_time: self.total_time,
            epoch_fetch: self.epoch_fetch,
            epoch_cache_update: self.epoch_cache_update,
            total_batches: self.total_batches,
            num_nodes: self.num_nodes,
            num_addrs_failed: self.num_addrs_failed,
            num_shreds: self.num_shreds,
            num_shreds_skipped: self.num_shreds_skipped,
            retransmit_total: self.retransmit_total,
            compute_turbine_peers_total: self.compute_turbine_peers_total,
            unknown_shred_slot_leader: self.unknown_shred_slot_leader,
        }
    }

    /// All counters zero; the submit window starts at `now_ms`.
    pub fn new(now_ms: u64) -> (r: RetransmitStats)
        ensures
            r.wf(),
            r.since_ms == now_ms,
            r.num_nodes == 0 && r.num_addrs_failed == 0 && r.num_shreds == 0
                && r.num_shreds_skipped == 0 && r.total_batches == 0 && r.total_time == 0
                && r.epoch_fetch == 0 && r.epoch_cache_update == 0 && r.retransmit_total == 0
                && r.compute_turbine_peers_total == 0 && r.unknown_shred_slot_leader == 0,
            ring_map(r.slot_stats) == empty_slot_map(),
            ring_order(r.slot_stats) == Seq::<u64>::empty(),
    {
        RetransmitStats {
            since_ms: now_ms,
            num_nodes: 0,
            num_addrs_failed: 0,
            num_shreds: 0,
            num_shreds_skipped: 0,
            total_batches: 0,
            total_time: 0,
            epoch_fetch: 0,
            epoch_cache_update: 0,
            retransmit_total: 0,
            compute_turbine_peers_total: 0,
            unknown_shred_slot_leader: 0,
            slot_stats: ring_new(),
        }
    }

    /// The ring entry for a slot, if it is still resident.
    pub fn slot_stats_peek(&self, slot: u64) -> (v: Option<RetransmitSlotStats>)
        ensures
            v == if ring_map(self.slot_stats).dom().contains(slot) {
                Some(ring_map(self.slot_stats)[slot])
            } else {
                None::<RetransmitSlotStats>
            },
    {
        ring_peek(&self.slot_stats, slot)
    }

    pub fn slot_stats_len(&self) -> (n: usize)
        ensures
            n == ring_order(self.slot_stats).len(),
    {
        ring_len(&self.slot_stats)
    }

    /// Fold a batch's per-slot counters into the ring, then pop the least
    /// recently updated entries until the ring is back at capacity. The
    /// returned records are those evicted entries, each emitted exactly
    /// once, in eviction order.
    pub fn upsert_slot_stats(&mut self, feed: &SlotStatsMap) -> (records: Vec<SlotStatsRecord>)
        requires
            old(self).wf(),
        ensures
            final(self).wf(),
            counters_eq(*final(self), *old(self)),
            ({
                let m = spec_merged_maps(ring_map(old(self).slot_stats), feed.entries@);
                let o = upserted_order(ring_order(old(self).slot_stats), feed.entries@);
                let n = spec_evict_count(o);
                &&& records@.len() == n
                &&& (forall|j: int| 0 <= j < n ==> records@[j] == spec_submit_record(o[j], m[o[j]]))
                &&& ring_order(final(self).slot_stats) == o.skip(n)
                &&& ring_map(final(self).slot_stats) == m.remove_keys(o.take(n).to_set())
                &&& ring_order(final(self).slot_stats).len() <= SLOT_STATS_CAPACITY
            }),
    {
        let ghost m0 = ring_map(self.slot_stats);
        let ghost o0 = ring_order(self.slot_stats);
        let mut i: usize = 0;
        while i < feed.entries.len()
            invariant
                counters_eq(*self, *old(self)),
                ring_wf(self.slot_stats),
                i <= feed.entries@.len(),
                ring_map(self.slot_stats) == spec_merged_maps(m0, feed.entries@.take(i as int)),
                ring_order(self.slot_stats) == upserted_order(o0, feed.entries@.take(i as int)),
            decreases feed.entries@.len() - i,
        {
            let (slot, stats) = feed.entries[i];
            let value = match ring_peek(&self.slot_stats, slot) {
                Some(mut existing) => {
                    existing.add_assign(stats);
                    existing
                },
                None => stats,
            };
            ring_put(&mut self.slot_stats, slot, value);
            proof {
                assert(feed.entries@.take(i + 1).drop_last() =~= feed.entries@.take(i as int));
                assert(feed.entries@.take(i + 1).last() == feed.entries@[i as int]);
            }
            i = i + 1;
        }
        proof {
            assert(feed.entries@.take(feed.entries@.len() as int) =~= feed.entries@);
        }
        let ghost m = spec_merged_maps(m0, feed.entries@);
        let ghost o = upserted_order(o0, feed.entries@);
        proof {
            assert(o.no_duplicates());
        }
        let mut records: Vec<SlotStatsRecord> = Vec::new();
        while ring_len(&self.slot_stats) > SLOT_STATS_CAPACITY
            invariant
                counters_eq(*self, *old(self)),
                ring_wf(self.slot_stats),
                o.no_duplicates(),
                records@.len() <= spec_evict_count(o),
                ring_order(self.slot_stats) == o.skip(records@.len() as int),
                ring_map(self.slot_stats) == m.remove_keys(o.take(records@.len() as int).to_set()),
                forall|j: int| 0 <= j < records@.len() ==> records@[j] == spec_submit_record(
                    o[j],
                    m[o[j]],
                ),
            decreases ring_order(self.slot_stats).len(),
        {
            let ghost j = records@.len() as int;
            let ghost pre_ring = self.slot_stats;
            match ring_pop_lru(&mut self.slot_stats) {
                Some((slot, stats)) => {
                    proof {
                        assert(o.skip(j)[0] == o[j]);
                        assert(ring_order(pre_ring)[0] == o[j]);
                        assert(!o.take(j).to_set().contains(o[j])) by {
                            if o.take(j).to_set().contains(o[j]) {
                                let idx = choose|idx: int|
                                    0 <= idx < j && o.take(j)[idx] == o[j];
                                assert(o[idx] == o[j]);
                            }
                        }
                        assert(ring_order(pre_ring).contains(o[j]));
                        assert(ring_map(pre_ring).dom().contains(o[j]));
                        assert(m.dom().contains(o[j]));
                        assert(m.remove_keys(o.take(j).to_set())[o[j]] == m[o[j]]);
                        assert(stats == m[o[j]]);
                    }
                    let rec = stats.submit(slot);
                    records.push(rec);
                    proof {
                        assert(o.skip(j).drop_first() =~= o.skip(j + 1));
                        let t1 = o.take(j + 1);
                        let t0 = o.take(j);
                        assert forall|a: u64| #[trigger] t1.contains(a) == (t0.contains(a) || a
                            == o[j]) by {
                            if t1.contains(a) {
                                let idx = choose|idx: int| 0 <= idx < t1.len() && t1[idx] == a;
                                if idx < j {
                                    assert(t0[idx] == a);
                                }
                            }
                            if t0.contains(a) {
                                let idx = choose|idx: int| 0 <= idx < t0.len() && t0[idx] == a;
                                assert(t1[idx] == a);
                            }
                            if a == o[j] {
                                assert(t1[j] == a);
                            }
                        }
                        assert(t1.to_set() =~= t0.to_set().insert(o[j]));
                        assert(m.remove_keys(t0.to_set()).remove(o[j]) =~= m.remove_keys(
                            t1.to_set(),
                        ));
                    }
                },
                None => {
                    proof {
                        assert(false);
                    }
                },
            }
        }
        proof {
            assert(records@.len() == spec_evict_count(o));
        }
        records
    }

    /// Emit the aggregate counters and reset them once the submit cadence
    /// has elapsed; the per-slot ring follows its own lifetime and is
    /// preserved across the reset.
    pub fn maybe_submit(&mut self, now_ms: u64) -> (r: Option<AggregateReport>)
        ensures
            final(self).slot_stats == old(self).slot_stats,
            final(self).wf() == old(self).wf(),
            if now_ms >= old(self).since_ms && now_ms - old(self).since_ms >= SUBMIT_CADENCE_MS {
                &&& r == Some(old(self).spec_report())
                &&& final(self).since_ms == now_ms
                &&& final(self).num_nodes == 0 && final(self).num_addrs_failed == 0
                    && final(self).num_shreds == 0 && final(self).num_shreds_skipped == 0
                    && final(self).total_batches == 0 && final(self).total_time == 0
                    && final(self).epoch_fetch == 0 && final(self).epoch_cache_update == 0
                    && final(self).retransmit_total == 0
                    && final(self).compute_turbine_peers_total == 0
                    && final(self).unknown_shred_slot_leader == 0
            } else {
                r == None::<AggregateReport> && counters_eq(*final(self), *old(self))
            },
    {
        if now_ms >= self.since_ms && now_ms - self.since_ms >= SUBMIT_CADENCE_MS {
            let report = AggregateReport {
                total_time: self.total_time,
                epoch_fetch: self.epoch_fetch,
                epoch_cache_update: self.epoch_cache_update,
                total_batches: self.total_batches,
                num_nodes: self.num_nodes,
                num_addrs_failed: self.num_addrs_failed,
                num_shreds: self.num_shreds,
                num_shreds_skipped: self.num_shreds_skipped,
                retransmit_total: self.retransmit_total,
                compute_turbine_peers_total: self.compute_turbine_peers_total,
                unknown_shred_slot_leader: self.unknown_shred_slot_leader,
            };
            self.since_ms = now_ms;
            self.num_nodes = 0;
            self.num_addrs_failed = 0;
            self.num_shreds = 0;
            self.num_shreds_skipped = 0;
            self.total_batches = 0;
            self.total_time = 0;
            self.epoch_fetch = 0;
            self.epoch_cache_update = 0;
            self.retransmit_total = 0;
            self.compute_turbine_peers_total = 0;
            self.unknown_shred_slot_leader = 0;
            Some(report)
        } else {
            None
        }
    }
}

} // verus!
