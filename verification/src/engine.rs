use vstd::prelude::*;
use crate::cluster_nodes::{
    ClusterNodesCache, EpochSchedule, Peer, SockAddr, SocketAddrSpace, spec_is_valid_address,
    CLUSTER_NODES_CACHE_NUM_EPOCH_CAP, CLUSTER_NODES_CACHE_TTL_MS,
};
use crate::deduper::{
    ShredDeduper, dedup_step, reset_step, MAX_DUPLICATE_COUNT, DEDUPER_RESET_CYCLE_MS,
    DEDUPER_MAX_NUM_BITS,
};
use crate::first_shred::{FirstShredTracker, observe_rel};
use crate::ring::{ring_map, ring_order};
use crate::shred::Shred;
use crate::slot_stats::{
    RootDistance, RetransmitSlotStats, SlotStatsMap, SlotStatsRecord, sat_add, spec_assoc_record,
    spec_merged_maps, spec_submit_record, sum_received,
};
use crate::stats::{
    AggregateReport, RetransmitStats, SLOT_STATS_CAPACITY, SUBMIT_CADENCE_MS, spec_evict_count,
    upserted_order,
};

verus! {

/// The supervisor blocks at most this long on the intake channel.
pub const RECV_TIMEOUT_MS: u64 = 1000;

/// Upper bound on the worker pool driving the datagram fan-out.
pub const WORKER_MAX: usize = 8;

/// Smallest number of shreds worth handing to one worker.
pub const WORKER_MIN_CHUNK: usize = 4;

/// The leader schedule as plain data: pairs of slot and leader id.
pub struct SlotLeaders {
    pub entries: Vec<(u64, u64)>,
}

impl SlotLeaders {
    /// The first leader registered for `slot`, if any.
    pub fn leader_at(&self, slot: u64) -> (r: Option<u64>)
        ensures
            match r {
                Some(l) => exists|i: int|
                    0 <= i < self.entries@.len() && #[trigger] self.entries@[i] == (slot, l)
                        && (forall|j: int| 0 <= j < i ==> (#[trigger] self.entries@[j]).0 != slot),
                None => forall|i: int|
                    0 <= i < self.entries@.len() ==> (#[trigger] self.entries@[i]).0 != slot,
            },
    {
        let mut i: usize = 0;
        while i < self.entries.len()
            invariant
                i <= self.entries@.len(),
                forall|j: int| 0 <= j < i ==> (#[trigger] self.entries@[j]).0 != slot,
            decreases self.entries@.len() - i,
        {
            if self.entries[i].0 == slot {
                let l = self.entries[i].1;
                proof {
                    assert(self.entries@[i as int] == (slot, l));
                }
                return Some(l);
            }
            i = i + 1;
        }
        None
    }
}

/// Per-batch inputs taken from the node's collaborators: the finalized
/// root, the working bank's leader schedule, the gossip membership, and
/// the clock.
pub struct BatchContext {
    pub root_slot: u64,
    pub slot_leaders: SlotLeaders,
    pub peers: Vec<Peer>,
    pub local_id: u64,
    pub shred_version: u16,
    pub addr_space: SocketAddrSpace,
    pub fanout: usize,
    pub epoch_schedule: EpochSchedule,
    pub now_ms: u64,
    /// Whether a subscription sink is installed for first-shred events.
    pub notify: bool,
    /// Seeds for the deduper's periodic rebuild, one per filter.
    pub payload_reset_seed: [u8; 32],
    pub id_reset_seed: [u8; 32],
}

/// One shred the engine decided to forward: which batch element it is,
/// where the local node stands in its broadcast tree, and which addresses
/// receive the payload verbatim.
pub struct PlanEntry {
    pub slot: u64,
    pub shred_index: usize,
    pub root_distance: RootDistance,
    pub addrs: Vec<SockAddr>,
}

/// A first-shred event to hand to the subscription sink.
#[derive(Clone, Copy, PartialEq, Eq, Structural, Debug)]
pub struct FirstShredNote {
    pub slot: u64,
    pub timestamp_ms: u64,
}

/// What one batch asks of the transport, plus the shreds set aside.
pub struct BatchPlan {
    pub entries: Vec<PlanEntry>,
    pub notes: Vec<FirstShredNote>,
    pub num_skipped: usize,
    pub num_unknown: usize,
}

/// Wall-clock phase durations measured around the batch, in microseconds.
#[derive(Clone, Copy, PartialEq, Eq, Structural, Debug)]
pub struct BatchTimings {
    pub total_us: u64,
    pub epoch_fetch_us: u64,
    pub epoch_cache_update_us: u64,
    pub turbine_us: u64,
    pub retransmit_us: u64,
}

/// What a finished batch emits: per-slot records evicted from the ring and
/// at most one aggregate report.
pub struct BatchOutcome {
    pub slot_records: Vec<SlotStatsRecord>,
    pub aggregate: Option<AggregateReport>,
}

/// Plan entries at the given distance.
pub open spec fn spec_count_distance(entries: Seq<PlanEntry>, d: RootDistance) -> int
    decreases entries.len(),
{
    if entries.len() == 0 {
        0
    } else {
        spec_count_distance(entries.drop_last(), d) + (if entries.last().root_distance == d {
            1int
        } else {
            0int
        })
    }
}

proof fn lemma_count_distance_le(entries: Seq<PlanEntry>, d: RootDistance)
    ensures
        0 <= spec_count_distance(entries, d) <= entries.len(),
    decreases entries.len(),
{
    if entries.len() > 0 {
        lemma_count_distance_le(entries.drop_last(), d);
    }
}

/// Addresses failures say were not reached, summed.
pub open spec fn spec_failed_sum(failures: Seq<usize>) -> int
    decreases failures.len(),
{
    if failures.len() == 0 {
        0
    } else {
        spec_failed_sum(failures.drop_last()) + failures.last()
    }
}

/// Addresses actually reached: each entry's targets less its failures.
pub open spec fn spec_delivered_sum(entries: Seq<PlanEntry>, failures: Seq<usize>) -> int
    decreases entries.len(),
{
    if entries.len() == 0 {
        0
    } else {
        spec_delivered_sum(entries.drop_last(), failures.drop_last()) + (
        entries.last().addrs@.len() - failures.last())
    }
}

pub open spec fn clamp64(x: int) -> u64 {
    if x > u64::MAX {
        u64::MAX
    } else if x < 0 {
        0u64
    } else {
        x as u64
    }
}

proof fn lemma_failed_sum_nonneg(failures: Seq<usize>)
    ensures
        spec_failed_sum(failures) >= 0,
    decreases failures.len(),
{
    if failures.len() > 0 {
        lemma_failed_sum_nonneg(failures.drop_last());
    }
}

proof fn lemma_delivered_sum_nonneg(entries: Seq<PlanEntry>, failures: Seq<usize>)
    requires
        failures.len() == entries.len(),
        forall|i: int| 0 <= i < entries.len() ==> #[trigger] failures[i] <= entries[i].addrs@.len(),
    ensures
        spec_delivered_sum(entries, failures) >= 0,
    decreases entries.len(),
{
    if entries.len() > 0 {
        lemma_delivered_sum_nonneg(entries.drop_last(), failures.drop_last());
        assert(failures[entries.len() - 1] <= entries[entries.len() - 1].addrs@.len());
    }
}

/// The association list that folding a whole batch yields: every plan
/// entry in turn contributes one shred received and its delivered address
/// count to its slot's counters.
pub open spec fn spec_fold_entries(
    entries: Seq<PlanEntry>,
    failures: Seq<usize>,
    now: u64,
) -> Seq<(u64, RetransmitSlotStats)>
    decreases entries.len(),
{
    if entries.len() == 0 {
        Seq::empty()
    } else {
        let init = spec_fold_entries(entries.drop_last(), failures.drop_last(), now);
        let e = entries.last();
        spec_assoc_record(
            init,
            e.slot,
            now,
            e.root_distance,
            (e.addrs@.len() - failures.last()) as u64,
        )
    }
}

/// Fold one batch's transmissions into per-slot counters: exactly
/// `spec_fold_entries`. Conservation: at every distance, exactly as many
/// shreds are counted received as the plan has entries at that distance.
pub fn fold_batch(entries: &Vec<PlanEntry>, failures: &Vec<usize>, now_ms: u64) -> (acc: SlotStatsMap)
    requires
        failures@.len() == entries@.len(),
        forall|i: int| 0 <= i < entries@.len() ==> #[trigger] failures@[i]
            <= entries@[i].addrs@.len(),
    ensures
        acc.wf(),
        acc.entries@ == spec_fold_entries(entries@, failures@, now_ms),
        forall|d: RootDistance| #[trigger] sum_received(acc.entries@, d) == spec_count_distance(
            entries@,
            d,
        ),
{
    let mut acc = SlotStatsMap::new();
    let mut i: usize = 0;
    proof {
        assert(entries@.take(0) =~= Seq::<PlanEntry>::empty());
    }
    while i < entries.len()
        invariant
            acc.wf(),
            i <= entries@.len(),
            failures@.len() == entries@.len(),
            forall|k: int| 0 <= k < entries@.len() ==> #[trigger] failures@[k]
                <= entries@[k].addrs@.len(),
            acc.entries@ == spec_fold_entries(
                entries@.take(i as int),
                failures@.take(i as int),
                now_ms,
            ),
            forall|d: RootDistance| #[trigger] sum_received(acc.entries@, d)
                == spec_count_distance(entries@.take(i as int), d),
        decreases entries@.len() - i,
    {
        let e = &entries[i];
        let f = failures[i];
        let sent = e.addrs.len() - f;
        proof {
            lemma_count_distance_le(entries@.take(i as int), e.root_distance);
        }
        acc.record_into(e.slot, now_ms, e.root_distance, sent as u64);
        proof {
            assert(entries@.take(i + 1).drop_last() =~= entries@.take(i as int));
            assert(entries@.take(i + 1).last() == entries@[i as int]);
            assert(failures@.take(i + 1).drop_last() =~= failures@.take(i as int));
            assert(failures@.take(i + 1).last() == failures@[i as int]);
        }
        i = i + 1;
    }
    proof {
        assert(entries@.take(entries@.len() as int) =~= entries@);
        assert(failures@.take(failures@.len() as int) =~= failures@);
    }
    acc
}

/// Some leader is registered for `slot`.
pub open spec fn spec_has_leader(leaders: SlotLeaders, slot: u64) -> bool {
    exists|i: int| 0 <= i < leaders.entries@.len() && (#[trigger] leaders.entries@[i]).0 == slot
}

/// The per-shred engine state the batch planner threads from shred to
/// shred: the deduper, the first-shred tracker and the highest slot seen.
pub struct PlanCursor {
    pub deduper: ShredDeduper,
    pub tracker: FirstShredTracker,
    pub max_slot: u64,
}

pub open spec fn spec_cursor_of(r: Retransmitter) -> PlanCursor {
    PlanCursor {
        deduper: r.deduper,
        tracker: r.first_shreds,
        max_slot: r.max_retransmit_slot,
    }
}

/// Shape of a forwarded entry: leaves get no addresses, at most `fanout`
/// children, every address passing the address-space policy.
pub open spec fn spec_entry_shape(e: PlanEntry, ctx: BatchContext) -> bool {
    &&& (e.root_distance == RootDistance::SecondLayer ==> e.addrs@.len() == 0)
    &&& e.addrs@.len() <= ctx.fanout
    &&& (forall|k: int| 0 <= k < e.addrs@.len() ==> spec_is_valid_address(
        #[trigger] e.addrs@[k],
        ctx.addr_space,
    ))
}

/// What planning one shred does. The deduper decides `dup` (fixed two-
/// sidedly by `dedup_step`); a kept shred raises the slot peak, is
/// observed by the tracker when a sink is installed (`observe_rel` fixing
/// `novel`), appends one note exactly when novel, appends one entry
/// exactly when its slot has a leader, and is otherwise counted unknown;
/// a dropped shred is counted skipped and changes nothing else.
pub open spec fn spec_plan_step(
    pre: PlanCursor,
    post: PlanCursor,
    s: Shred,
    idx: int,
    ctx: BatchContext,
    entries_pre: Seq<PlanEntry>,
    entries: Seq<PlanEntry>,
    notes_pre: Seq<FirstShredNote>,
    notes: Seq<FirstShredNote>,
    skipped_pre: int,
    skipped: int,
    unknown_pre: int,
    unknown: int,
    dup: bool,
    novel: bool,
) -> bool {
    let keep = !dup && spec_has_leader(ctx.slot_leaders, s.slot);
    let noted = ctx.notify && !dup && novel;
    &&& dedup_step(pre.deduper, post.deduper, s, MAX_DUPLICATE_COUNT, dup)
    &&& (if !dup && ctx.notify {
        observe_rel(pre.tracker, post.tracker, s.slot, ctx.root_slot, novel)
    } else {
        post.tracker == pre.tracker && !novel
    })
    &&& post.max_slot == (if !dup && s.slot > pre.max_slot {
        s.slot
    } else {
        pre.max_slot
    })
    &&& (if keep {
        &&& entries.len() == entries_pre.len() + 1
        &&& entries.drop_last() == entries_pre
        &&& entries.last().slot == s.slot
        &&& entries.last().shred_index == idx
        &&& spec_entry_shape(entries.last(), ctx)
    } else {
        entries == entries_pre
    })
    &&& (if noted {
        &&& notes.len() == notes_pre.len() + 1
        &&& notes.drop_last() == notes_pre
        &&& notes.last() == (FirstShredNote { slot: s.slot, timestamp_ms: ctx.now_ms })
    } else {
        notes == notes_pre
    })
    &&& skipped == skipped_pre + (if dup {
        1int
    } else {
        0int
    })
    &&& unknown == unknown_pre + (if !dup && !spec_has_leader(ctx.slot_leaders, s.slot) {
        1int
    } else {
        0int
    })
}

/// The whole batch plan, shred by shred: there is a run of cursors from
/// `start` to `end` whose steps produce exactly the given entries, notes
/// and skip counts.
#[verifier::opaque]
pub open spec fn spec_plan_rel(
    start: PlanCursor,
    end: PlanCursor,
    shreds: Seq<Shred>,
    ctx: BatchContext,
    entries: Seq<PlanEntry>,
    notes: Seq<FirstShredNote>,
    skipped: int,
    unknown: int,
) -> bool
    decreases shreds.len(),
{
    if shreds.len() == 0 {
        end == start && entries.len() == 0 && notes.len() == 0 && skipped == 0 && unknown == 0
    } else {
        exists|
            mid: PlanCursor,
            idx: int,
            entries_pre: Seq<PlanEntry>,
            notes_pre: Seq<FirstShredNote>,
            skipped_pre: int,
            unknown_pre: int,
            dup: bool,
            novel: bool,
        |
            {
                &&& #[trigger] spec_plan_step(
                    mid,
                    end,
                    shreds.last(),
                    idx,
                    ctx,
                    entries_pre,
                    entries,
                    notes_pre,
                    notes,
                    skipped_pre,
                    skipped,
                    unknown_pre,
                    unknown,
                    dup,
                    novel,
                )
                &&& idx == shreds.len() - 1
                &&& spec_plan_rel(
                    start,
                    mid,
                    shreds.drop_last(),
                    ctx,
                    entries_pre,
                    notes_pre,
                    skipped_pre,
                    unknown_pre,
                )
            }
    }
}

proof fn lemma_plan_rel_empty(c: PlanCursor, ctx: BatchContext)
    ensures
        spec_plan_rel(c, c, Seq::empty(), ctx, Seq::empty(), Seq::empty(), 0, 0),
{
    reveal(spec_plan_rel);
}

proof fn lemma_plan_rel_extend(
    start: PlanCursor,
    mid: PlanCursor,
    end: PlanCursor,
    shreds_pre: Seq<Shred>,
    s: Shred,
    ctx: BatchContext,
    entries_pre: Seq<PlanEntry>,
    entries: Seq<PlanEntry>,
    notes_pre: Seq<FirstShredNote>,
    notes: Seq<FirstShredNote>,
    skipped_pre: int,
    skipped: int,
    unknown_pre: int,
    unknown: int,
    dup: bool,
    novel: bool,
)
    requires
        spec_plan_rel(start, mid, shreds_pre, ctx, entries_pre, notes_pre, skipped_pre, unknown_pre),
        spec_plan_step(
            mid,
            end,
            s,
            shreds_pre.len() as int,
            ctx,
            entries_pre,
            entries,
            notes_pre,
            notes,
            skipped_pre,
            skipped,
            unknown_pre,
            unknown,
            dup,
            novel,
        ),
    ensures
        spec_plan_rel(start, end, shreds_pre.push(s), ctx, entries, notes, skipped, unknown),
{
    reveal(spec_plan_rel);
    let sh = shreds_pre.push(s);
    assert(sh.drop_last() =~= shreds_pre);
    assert(sh.last() == s);
    assert(spec_plan_step(
        mid,
        end,
        sh.last(),
        shreds_pre.len() as int,
        ctx,
        entries_pre,
        entries,
        notes_pre,
        notes,
        skipped_pre,
        skipped,
        unknown_pre,
        unknown,
        dup,
        novel,
    ));
}

/// Slot-stats conservation over one batch: at every root distance, the
/// per-slot counters the batch folds toward the ring count exactly the
/// plan's entries at that distance. `spec_plan_rel` ties those entries to
/// the admitted, leader-known shreds, and `record_batch` merges exactly
/// this fold into the ring.
pub proof fn lemma_batch_slot_stats_conservation(
    entries: Seq<PlanEntry>,
    failures: Seq<usize>,
    now_ms: u64,
    d: RootDistance,
)
    requires
        failures.len() == entries.len(),
        forall|i: int| 0 <= i < entries.len() ==> #[trigger] failures[i] <= entries[i].addrs@.len(),
        entries.len() < u64::MAX,
    ensures
        sum_received(spec_fold_entries(entries, failures, now_ms), d) == spec_count_distance(
            entries,
            d,
        ),
    decreases entries.len(),
{
    if entries.len() > 0 {
        let pre_entries = entries.drop_last();
        let pre_failures = failures.drop_last();
        assert forall|i: int| 0 <= i < pre_entries.len() implies #[trigger] pre_failures[i]
            <= pre_entries[i].addrs@.len() by {
            assert(failures[i] <= entries[i].addrs@.len());
        }
        let d0 = entries.last().root_distance;
        lemma_batch_slot_stats_conservation(pre_entries, pre_failures, now_ms, d);
        lemma_batch_slot_stats_conservation(pre_entries, pre_failures, now_ms, d0);
        lemma_count_distance_le(pre_entries, d0);
        let prefix = spec_fold_entries(pre_entries, pre_failures, now_ms);
        assert(failures[entries.len() - 1] <= entries[entries.len() - 1].addrs@.len());
        crate::slot_stats::lemma_assoc_record_sums(
            prefix,
            entries.last().slot,
            now_ms,
            d0,
            (entries.last().addrs@.len() - failures.last()) as u64,
            d,
        );
    }
}

/// The retransmit engine's state: the two-stage deduper, the aggregate and
/// per-slot statistics, the first-shred tracker, the epoch-keyed peer
/// cache, and the highest slot seen.
pub struct Retransmitter {
    pub deduper: ShredDeduper,
    pub stats: RetransmitStats,
    pub first_shreds: FirstShredTracker,
    pub cluster_nodes: ClusterNodesCache,
    pub max_retransmit_slot: u64,
}

impl Retransmitter {
    pub open spec fn wf(self) -> bool {
        &&& self.deduper.wf()
        &&& self.stats.wf()
        &&& self.first_shreds.wf()
        &&& self.cluster_nodes.wf()
    }

    pub fn new(payload_seed: [u8; 32], id_seed: [u8; 32], num_bits: u64, now_ms: u64) -> (r: Retransmitter)
        requires
            1 <= num_bits <= DEDUPER_MAX_NUM_BITS,
        ensures
            r.wf(),
            r.max_retransmit_slot == 0,
            crate::deduper::payload_filter_covered(r.deduper.payload_filter) == Set::<
                Seq<u8>,
            >::empty(),
            crate::deduper::id_filter_covered(r.deduper.id_filter) == Set::<
                (u64, u32, u8, u64),
            >::empty(),
            r.deduper.num_bits == num_bits,
            r.deduper.payload_count == 0 && r.deduper.id_count == 0,
            r.deduper.payload_reset_ms == now_ms && r.deduper.id_reset_ms == now_ms,
            r.stats.since_ms == now_ms,
            r.stats.num_nodes == 0 && r.stats.num_addrs_failed == 0 && r.stats.num_shreds == 0
                && r.stats.num_shreds_skipped == 0 && r.stats.total_batches == 0
                && r.stats.total_time == 0 && r.stats.epoch_fetch == 0
                && r.stats.epoch_cache_update == 0 && r.stats.retransmit_total == 0
                && r.stats.compute_turbine_peers_total == 0
                && r.stats.unknown_shred_slot_leader == 0,
            ring_map(r.stats.slot_stats) == crate::ring::empty_slot_map(),
            ring_order(r.stats.slot_stats) == Seq::<u64>::empty(),
            r.first_shreds.slots@.len() == 0,
            r.cluster_nodes.entries@.len() == 0,
            r.cluster_nodes.capacity == CLUSTER_NODES_CACHE_NUM_EPOCH_CAP,
            r.cluster_nodes.ttl_ms == CLUSTER_NODES_CACHE_TTL_MS,
    {
        Retransmitter {
            deduper: ShredDeduper::new(payload_seed, id_seed, num_bits, now_ms),
            stats: RetransmitStats::new(now_ms),
            first_shreds: FirstShredTracker::new(),
            cluster_nodes: ClusterNodesCache::new(
                CLUSTER_NODES_CACHE_NUM_EPOCH_CAP,
                CLUSTER_NODES_CACHE_TTL_MS,
            ),
            max_retransmit_slot: 0,
        }
    }

    /// Look up the arrangement for the shred's slot and compute the local
    /// node's children in the broadcast tree rooted at the leader.
    fn compute_retransmit_addrs(
        cache: &mut ClusterNodesCache,
        slot: u64,
        leader: u64,
        ctx: &BatchContext,
    ) -> (r: (RootDistance, Vec<SockAddr>))
        requires
            old(cache).wf(),
            ctx.epoch_schedule.wf(),
            1 <= ctx.fanout <= 0xFFFF,
        ensures
            final(cache).wf(),
            r.0 == RootDistance::SecondLayer ==> r.1@.len() == 0,
            r.1@.len() <= ctx.fanout,
            forall|k: int| 0 <= k < r.1@.len() ==> spec_is_valid_address(
                #[trigger] r.1@[k],
                ctx.addr_space,
            ),
    {
        let snapshot = cache.get(
            slot,
            leader,
            ctx.now_ms,
            &ctx.peers,
            ctx.shred_version,
            &ctx.epoch_schedule,
        );
        snapshot.get_retransmit_addrs(leader, ctx.local_id, ctx.fanout, ctx.addr_space)
    }

    /// Decide one batch: refresh the deduper, drop replays and
    /// over-budget duplicates, note first shreds, skip shreds with no
    /// known leader, and compute each forwarded shred's broadcast-tree
    /// position and child addresses. Every shred is accounted for: it
    /// yields a plan entry, a dedup skip, or an unknown-leader skip, and
    /// `spec_plan_rel` pins the whole batch to a run of deduper and
    /// tracker states from the refreshed state to the final one.
    #[verifier::rlimit(100)]
    #[verifier::spinoff_prover]
    pub fn plan_batch(&mut self, shreds: &Vec<Shred>, ctx: &BatchContext) -> (plan: BatchPlan)
        requires
            old(self).wf(),
            ctx.epoch_schedule.wf(),
            1 <= ctx.fanout <= 0xFFFF,
        ensures
            final(self).wf(),
            plan.entries@.len() + plan.num_skipped + plan.num_unknown == shreds@.len(),
            final(self).stats.num_shreds == sat_add(
                old(self).stats.num_shreds,
                shreds@.len() as u64,
            ),
            final(self).stats.total_batches == sat_add(old(self).stats.total_batches, 1),
            final(self).stats.num_shreds_skipped == sat_add(
                old(self).stats.num_shreds_skipped,
                plan.num_skipped as u64,
            ),
            final(self).stats.unknown_shred_slot_leader == sat_add(
                old(self).stats.unknown_shred_slot_leader,
                plan.num_unknown as u64,
            ),
            final(self).stats.num_nodes == old(self).stats.num_nodes,
            final(self).stats.num_addrs_failed == old(self).stats.num_addrs_failed,
            final(self).stats.total_time == old(self).stats.total_time,
            final(self).stats.epoch_fetch == old(self).stats.epoch_fetch,
            final(self).stats.epoch_cache_update == old(self).stats.epoch_cache_update,
            final(self).stats.retransmit_total == old(self).stats.retransmit_total,
            final(self).stats.compute_turbine_peers_total == old(
                self,
            ).stats.compute_turbine_peers_total,
            final(self).stats.since_ms == old(self).stats.since_ms,
            ring_map(final(self).stats.slot_stats) == ring_map(old(self).stats.slot_stats),
            ring_order(final(self).stats.slot_stats) == ring_order(old(self).stats.slot_stats),
            final(self).max_retransmit_slot >= old(self).max_retransmit_slot,
            forall|i: int| 0 <= i < plan.entries@.len() ==> {
                let e = #[trigger] plan.entries@[i];
                &&& spec_entry_shape(e, *ctx)
                &&& e.slot <= final(self).max_retransmit_slot
                &&& e.shred_index < shreds@.len()
                &&& shreds@[e.shred_index as int].slot == e.slot
            },
            forall|i: int, j: int| 0 <= i < j < plan.entries@.len()
                ==> (#[trigger] plan.entries@[i]).shred_index < (#[trigger] plan.entries@[j]).shred_index,
            !ctx.notify ==> plan.notes@.len() == 0 && final(self).first_shreds.slots@ == old(
                self,
            ).first_shreds.slots@,
            forall|i: int, j: int| 0 <= i < j < plan.notes@.len() ==> (#[trigger] plan.notes@[i]).slot
                != (#[trigger] plan.notes@[j]).slot,
            forall|i: int| 0 <= i < plan.notes@.len() ==> (#[trigger] plan.notes@[i]).slot
                > ctx.root_slot && plan.notes@[i].timestamp_ms == ctx.now_ms,
            exists|reset_deduper: ShredDeduper| {
                &&& #[trigger] reset_step(
                    old(self).deduper,
                    reset_deduper,
                    ctx.now_ms,
                    DEDUPER_RESET_CYCLE_MS,
                )
                &&& spec_plan_rel(
                    (PlanCursor {
                        deduper: reset_deduper,
                        tracker: old(self).first_shreds,
                        max_slot: old(self).max_retransmit_slot,
                    }),
                    spec_cursor_of(*final(self)),
                    shreds@,
                    *ctx,
                    plan.entries@,
                    plan.notes@,
                    plan.num_skipped as int,
                    plan.num_unknown as int,
                )
            },
    {
        self.deduper.maybe_reset(
            ctx.payload_reset_seed,
            ctx.id_reset_seed,
            ctx.now_ms,
            DEDUPER_RESET_CYCLE_MS,
        );
        self.stats.num_shreds = self.stats.num_shreds.saturating_add(shreds.len() as u64);
        self.stats.total_batches = self.stats.total_batches.saturating_add(1);
        let ghost mid = *self;
        let ghost start_cursor = spec_cursor_of(*self);
        let mut entries: Vec<PlanEntry> = Vec::new();
        let mut notes: Vec<FirstShredNote> = Vec::new();
        let mut num_skipped: usize = 0;
        let mut num_unknown: usize = 0;
        let mut i: usize = 0;
        proof {
            lemma_plan_rel_empty(start_cursor, *ctx);
            assert(shreds@.take(0) =~= Seq::<Shred>::empty());
        }
        while i < shreds.len()
            invariant
                self.wf(),
                spec_plan_rel(
                    start_cursor,
                    spec_cursor_of(*self),
                    shreds@.take(i as int),
                    *ctx,
                    entries@,
                    notes@,
                    num_skipped as int,
                    num_unknown as int,
                ),
                ctx.epoch_schedule.wf(),
                1 <= ctx.fanout <= 0xFFFF,
                i <= shreds@.len(),
                entries@.len() + num_skipped + num_unknown == i,
                self.stats.num_shreds == mid.stats.num_shreds,
                self.stats.total_batches == mid.stats.total_batches,
                self.stats.num_shreds_skipped == mid.stats.num_shreds_skipped,
                self.stats.unknown_shred_slot_leader == mid.stats.unknown_shred_slot_leader,
                self.stats.num_nodes == mid.stats.num_nodes,
                self.stats.num_addrs_failed == mid.stats.num_addrs_failed,
                self.stats.total_time == mid.stats.total_time,
                self.stats.epoch_fetch == mid.stats.epoch_fetch,
                self.stats.epoch_cache_update == mid.stats.epoch_cache_update,
                self.stats.retransmit_total == mid.stats.retransmit_total,
                self.stats.compute_turbine_peers_total == mid.stats.compute_turbine_peers_total,
                self.stats.since_ms == mid.stats.since_ms,
                ring_map(self.stats.slot_stats) == ring_map(mid.stats.slot_stats),
                ring_order(self.stats.slot_stats) == ring_order(mid.stats.slot_stats),
                self.max_retransmit_slot >= mid.max_retransmit_slot,
                forall|k: int| 0 <= k < entries@.len() ==> {
                    let e = #[trigger] entries@[k];
                    &&& spec_entry_shape(e, *ctx)
                    &&& e.slot <= self.max_retransmit_slot
                    &&& e.shred_index < i
                    &&& shreds@[e.shred_index as int].slot == e.slot
                },
                forall|a: int, b: int| 0 <= a < b < entries@.len()
                    ==> (#[trigger] entries@[a]).shred_index < (#[trigger] entries@[b]).shred_index,
                !ctx.notify ==> notes@.len() == 0 && self.first_shreds.slots@ == mid.first_shreds.slots@,
                forall|a: int| 0 <= a < notes@.len() ==> self.first_shreds.spec_contains(
                    (#[trigger] notes@[a]).slot,
                ),
                forall|a: int, b: int| 0 <= a < b < notes@.len() ==> (#[trigger] notes@[a]).slot
                    != (#[trigger] notes@[b]).slot,
                forall|a: int| 0 <= a < notes@.len() ==> (#[trigger] notes@[a]).slot
                    > ctx.root_slot && notes@[a].timestamp_ms == ctx.now_ms,
            decreases shreds@.len() - i,
        {
            let shred = &shreds[i];
            let ghost mid_cursor = spec_cursor_of(*self);
            let ghost entries0 = entries@;
            let ghost notes0 = notes@;
            let ghost skipped0 = num_skipped as int;
            let ghost unknown0 = num_unknown as int;
            let ghost mut novel_seen: bool = false;
            let dup = self.deduper.dedup(shred, MAX_DUPLICATE_COUNT);
            if dup {
                num_skipped = num_skipped + 1;
            } else {
                if shred.slot > self.max_retransmit_slot {
                    self.max_retransmit_slot = shred.slot;
                }
                if ctx.notify {
                    let novel = self.first_shreds.observe(shred.slot, ctx.root_slot);
                    proof {
                        reveal(observe_rel);
                        novel_seen = novel;
                    }
                    if novel {
                        notes.push(
                            FirstShredNote { slot: shred.slot, timestamp_ms: ctx.now_ms },
                        );
                    }
                }
                match ctx.slot_leaders.leader_at(shred.slot) {
                    None => {
                        num_unknown = num_unknown + 1;
                        proof {
                            assert(!spec_has_leader(ctx.slot_leaders, shred.slot));
                        }
                    },
                    Some(leader) => {
                        proof {
                            assert(spec_has_leader(ctx.slot_leaders, shred.slot));
                        }
                        let (d, addrs) = Self::compute_retransmit_addrs(
                            &mut self.cluster_nodes,
                            shred.slot,
                            leader,
                            ctx,
                        );
                        entries.push(
                            PlanEntry { slot: shred.slot, shred_index: i, root_distance: d, addrs },
                        );
                    },
                }
            }
            proof {
                if entries@.len() > entries0.len() {
                    assert(entries@.drop_last() =~= entries0);
                }
                if notes@.len() > notes0.len() {
                    assert(notes@.drop_last() =~= notes0);
                }
                assert(spec_plan_step(
                    mid_cursor,
                    spec_cursor_of(*self),
                    shreds@[i as int],
                    i as int,
                    *ctx,
                    entries0,
                    entries@,
                    notes0,
                    notes@,
                    skipped0,
                    num_skipped as int,
                    unknown0,
                    num_unknown as int,
                    dup,
                    novel_seen,
                ));
                lemma_plan_rel_extend(
                    start_cursor,
                    mid_cursor,
                    spec_cursor_of(*self),
                    shreds@.take(i as int),
                    shreds@[i as int],
                    *ctx,
                    entries0,
                    entries@,
                    notes0,
                    notes@,
                    skipped0,
                    num_skipped as int,
                    unknown0,
                    num_unknown as int,
                    dup,
                    novel_seen,
                );
                assert(shreds@.take(i as int).push(shreds@[i as int]) =~= shreds@.take(i + 1));
            }
            i = i + 1;
        }
        proof {
            assert(shreds@.take(shreds@.len() as int) =~= shreds@);
            assert(reset_step(
                old(self).deduper,
                start_cursor.deduper,
                ctx.now_ms,
                DEDUPER_RESET_CYCLE_MS,
            ));
        }
        self.stats.num_shreds_skipped = self.stats.num_shreds_skipped.saturating_add(
            num_skipped as u64,
        );
        self.stats.unknown_shred_slot_leader = self.stats.unknown_shred_slot_leader.saturating_add(
            num_unknown as u64,
        );
        BatchPlan { entries, notes, num_skipped, num_unknown }
    }


    /// Account one batch's transmissions: fold the per-shred outcomes into
    /// per-slot counters, merge them into the ring (popping and emitting
    /// entries beyond its capacity), add the delivery counts and phase
    /// timings to the aggregate counters, and emit the aggregate report
    /// when the submit window has elapsed.
    pub fn record_batch(
        &mut self,
        plan: &BatchPlan,
        failures: &Vec<usize>,
        timings: &BatchTimings,
        now_ms: u64,
    ) -> (outcome: BatchOutcome)
        requires
            old(self).wf(),
            failures@.len() == plan.entries@.len(),
            forall|i: int| 0 <= i < plan.entries@.len() ==> #[trigger] failures@[i]
                <= plan.entries@[i].addrs@.len(),
        ensures
            final(self).wf(),
            ring_order(final(self).stats.slot_stats).len() <= SLOT_STATS_CAPACITY,
            final(self).max_retransmit_slot == old(self).max_retransmit_slot,
            final(self).first_shreds.slots@ == old(self).first_shreds.slots@,
            ({
                let s = old(self).stats;
                let updated_nodes = sat_add(
                    s.num_nodes,
                    clamp64(spec_delivered_sum(plan.entries@, failures@)),
                );
                let updated_failed = sat_add(
                    s.num_addrs_failed,
                    clamp64(spec_failed_sum(failures@)),
                );
                let updated_total = sat_add(s.total_time, timings.total_us);
                let updated_ef = sat_add(s.epoch_fetch, timings.epoch_fetch_us);
                let updated_ecu = sat_add(s.epoch_cache_update, timings.epoch_cache_update_us);
                let updated_turbine = sat_add(
                    s.compute_turbine_peers_total,
                    timings.turbine_us,
                );
                let updated_retransmit = sat_add(s.retransmit_total, timings.retransmit_us);
                let due = now_ms >= s.since_ms && now_ms - s.since_ms >= SUBMIT_CADENCE_MS;
                if due {
                    &&& outcome.aggregate == Some(
                        AggregateReport {
                            total_time: updated_total,
                            epoch_fetch: updated_ef,
                            epoch_cache_update: updated_ecu,
                            total_batches: s.total_batches,
                            num_nodes: updated_nodes,
                            num_addrs_failed: updated_failed,
                            num_shreds: s.num_shreds,
                            num_shreds_skipped: s.num_shreds_skipped,
                            retransmit_total: updated_retransmit,
                            compute_turbine_peers_total: updated_turbine,
                            unknown_shred_slot_leader: s.unknown_shred_slot_leader,
                        },
                    )
                    &&& final(self).stats.since_ms == now_ms
                    &&& final(self).stats.num_shreds == 0
                    &&& final(self).stats.num_shreds_skipped == 0
                    &&& final(self).stats.num_nodes == 0
                    &&& final(self).stats.num_addrs_failed == 0
                    &&& final(self).stats.total_batches == 0
                    &&& final(self).stats.unknown_shred_slot_leader == 0
                } else {
                    &&& outcome.aggregate is None
                    &&& final(self).stats.since_ms == s.since_ms
                    &&& final(self).stats.num_shreds == s.num_shreds
                    &&& final(self).stats.num_shreds_skipped == s.num_shreds_skipped
                    &&& final(self).stats.num_nodes == updated_nodes
                    &&& final(self).stats.num_addrs_failed == updated_failed
                    &&& final(self).stats.total_batches == s.total_batches
                    &&& final(self).stats.unknown_shred_slot_leader
                        == s.unknown_shred_slot_leader
                    &&& final(self).stats.total_time == updated_total
                    &&& final(self).stats.epoch_fetch == updated_ef
                    &&& final(self).stats.epoch_cache_update == updated_ecu
                    &&& final(self).stats.retransmit_total == updated_retransmit
                    &&& final(self).stats.compute_turbine_peers_total == updated_turbine
                }
            }),
            ({
                let feed = spec_fold_entries(plan.entries@, failures@, now_ms);
                let m = spec_merged_maps(ring_map(old(self).stats.slot_stats), feed);
                let o = upserted_order(ring_order(old(self).stats.slot_stats), feed);
                let n = spec_evict_count(o);
                &&& outcome.slot_records@.len() == n
                &&& (forall|j: int| 0 <= j < n ==> outcome.slot_records@[j] == spec_submit_record(
                    o[j],
                    m[o[j]],
                ))
                &&& ring_order(final(self).stats.slot_stats) == o.skip(n)
                &&& ring_map(final(self).stats.slot_stats) == m.remove_keys(o.take(n).to_set())
            }),
    {
        let feed = fold_batch(&plan.entries, failures, now_ms);
        let mut delivered: u64 = 0;
        let mut failed: u64 = 0;
        let mut i: usize = 0;
        proof {
            assert(plan.entries@.take(0) =~= Seq::<PlanEntry>::empty());
            assert(failures@.take(0) =~= Seq::<usize>::empty());
        }
        while i < failures.len()
            invariant
                i <= failures@.len(),
                failures@.len() == plan.entries@.len(),
                forall|k: int| 0 <= k < plan.entries@.len() ==> #[trigger] failures@[k]
                    <= plan.entries@[k].addrs@.len(),
                delivered == clamp64(
                    spec_delivered_sum(plan.entries@.take(i as int), failures@.take(i as int)),
                ),
                failed == clamp64(spec_failed_sum(failures@.take(i as int))),
            decreases failures@.len() - i,
        {
            let e = &plan.entries[i];
            let f = failures[i];
            proof {
                lemma_delivered_sum_nonneg(
                    plan.entries@.take(i as int),
                    failures@.take(i as int),
                );
                lemma_failed_sum_nonneg(failures@.take(i as int));
                assert(plan.entries@.take(i + 1).drop_last() =~= plan.entries@.take(i as int));
                assert(plan.entries@.take(i + 1).last() == plan.entries@[i as int]);
                assert(failures@.take(i + 1).drop_last() =~= failures@.take(i as int));
                assert(failures@.take(i + 1).last() == failures@[i as int]);
            }
            delivered = delivered.saturating_add((e.addrs.len() - f) as u64);
            failed = failed.saturating_add(f as u64);
            i = i + 1;
        }
        proof {
            assert(plan.entries@.take(plan.entries@.len() as int) =~= plan.entries@);
            assert(failures@.take(failures@.len() as int) =~= failures@);
        }
        self.stats.num_nodes = self.stats.num_nodes.saturating_add(delivered);
        self.stats.num_addrs_failed = self.stats.num_addrs_failed.saturating_add(failed);
        self.stats.total_time = self.stats.total_time.saturating_add(timings.total_us);
        self.stats.epoch_fetch = self.stats.epoch_fetch.saturating_add(timings.epoch_fetch_us);
        self.stats.epoch_cache_update = self.stats.epoch_cache_update.saturating_add(
            timings.epoch_cache_update_us,
        );
        self.stats.compute_turbine_peers_total = self.stats.compute_turbine_peers_total
            .saturating_add(timings.turbine_us);
        self.stats.retransmit_total = self.stats.retransmit_total.saturating_add(
            timings.retransmit_us,
        );
        let slot_records = self.stats.upsert_slot_stats(&feed);
        let aggregate = self.stats.maybe_submit(now_ms);
        BatchOutcome { slot_records, aggregate }
    }
}

} // verus!
