use vstd::prelude::*;
use crate::slot_stats::RetransmitSlotStats;

verus! {

/// LRU ring of per-slot counters, keyed by slot. Recency is modelled by
/// `ring_order`: least recently updated key first, most recently updated
/// last. The ring itself is unbounded; its capacity is enforced by the
/// caller, which pops and emits the least recent entries.
#[verifier::external_body]
pub struct SlotStatsRing {
    inner: lru::LruCache<u64, RetransmitSlotStats>,
}

/// What the ring holds, slot to counters.
pub uninterp spec fn ring_map(r: SlotStatsRing) -> Map<u64, RetransmitSlotStats>;

/// The ring's keys in recency order: least recently updated first.
pub uninterp spec fn ring_order(r: SlotStatsRing) -> Seq<u64>;

/// The two models agree: each key appears once, and the recency order
/// carries exactly the keys of the map.
pub open spec fn ring_wf(r: SlotStatsRing) -> bool {
    &&& ring_order(r).no_duplicates()
    &&& forall|slot: u64|
        ring_map(r).dom().contains(slot) == #[trigger] ring_order(r).contains(slot)
}

/// The empty slot-to-counters map.
pub open spec fn empty_slot_map() -> Map<u64, RetransmitSlotStats> {
    Map::empty()
}

/// Relies on `lru::LruCache::unbounded`: a cache with no entries and no
/// internal capacity bound, so nothing is evicted behind the caller's back.
#[verifier::external_body]
pub(crate) fn ring_new() -> (r: SlotStatsRing)
    ensures
        ring_map(r) == empty_slot_map(),
        ring_order(r) == Seq::<u64>::empty(),
{
    SlotStatsRing { inner: lru::LruCache::unbounded() }
}

/// Relies on `lru::LruCache::len`: the number of entries held.
#[verifier::external_body]
pub(crate) fn ring_len(r: &SlotStatsRing) -> (n: usize)
    ensures
        n == ring_order(*r).len(),
{
    r.inner.len()
}

/// Relies on `lru::LruCache::peek`: returns the entry for the key without
/// touching recency.
#[verifier::external_body]
pub(crate) fn ring_peek(r: &SlotStatsRing, slot: u64) -> (v: Option<RetransmitSlotStats>)
    ensures
        v == if ring_map(*r).dom().contains(slot) {
            Some(ring_map(*r)[slot])
        } else {
            None::<RetransmitSlotStats>
        },
{
    r.inner.peek(&slot).copied()
}

/// Relies on `lru::LruCache::put`: inserts or replaces the entry and makes
/// its key the most recently used; every other entry is untouched.
#[verifier::external_body]
pub(crate) fn ring_put(r: &mut SlotStatsRing, slot: u64, v: RetransmitSlotStats)
    ensures
        ring_map(*final(r)) == ring_map(*old(r)).insert(slot, v),
        ring_order(*final(r)) == ring_order(*old(r)).remove_value(slot).push(slot),
        ring_wf(*old(r)) ==> ring_wf(*final(r)),
{
    let _ = r.inner.put(slot, v);
}

/// Relies on `lru::LruCache::pop_lru`: removes and returns the least
/// recently used entry, or nothing from an empty cache.
#[verifier::external_body]
pub(crate) fn ring_pop_lru(r: &mut SlotStatsRing) -> (v: Option<(u64, RetransmitSlotStats)>)
    ensures
        ring_order(*old(r)).len() == 0 ==> (v is None) && ring_map(*final(r)) == ring_map(
            *old(r),
        ) && ring_order(*final(r)) == ring_order(*old(r)),
        ring_order(*old(r)).len() > 0 ==> v == Some(
            (ring_order(*old(r))[0], ring_map(*old(r))[ring_order(*old(r))[0]]),
        ) && ring_map(*final(r)) == ring_map(*old(r)).remove(ring_order(*old(r))[0])
            && ring_order(*final(r)) == ring_order(*old(r)).drop_first(),
        ring_wf(*old(r)) ==> ring_wf(*final(r)),
{
    r.inner.pop_lru()
}

} // verus!
