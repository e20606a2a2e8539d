use vstd::prelude::*;

verus! {

/// Saturating add on counters: statistics never panic on overflow.
pub open spec fn sat_add(a: u64, b: u64) -> u64 {
    if a + b > u64::MAX {
        u64::MAX
    } else {
        (a + b) as u64
    }
}

/// Saturating subtraction, used for elapsed-time fields.
pub open spec fn sat_sub(a: u64, b: u64) -> u64 {
    if a >= b {
        (a - b) as u64
    } else {
        0u64
    }
}

/// Depth of the local node in the broadcast tree for one shred: directly
/// downstream of the leader, in the first forwarding layer, or a leaf.
#[derive(Clone, Copy, PartialEq, Eq, Structural, Debug)]
pub enum RootDistance {
    Root,
    FirstLayer,
    SecondLayer,
}

/// Per-slot retransmit counters. `outset` is the earliest retransmit
/// timestamp for the slot (zero meaning unset), `asof` the latest update;
/// the six counters split shreds received and addresses targeted by the
/// local node's distance from the broadcast root.
#[derive(Clone, Copy, PartialEq, Eq, Structural, Debug)]
pub struct RetransmitSlotStats {
    pub asof: u64,
    pub outset: u64,
    pub received_root: u64,
    pub received_first: u64,
    pub received_second: u64,
    pub sent_root: u64,
    pub sent_first: u64,
    pub sent_second: u64,
}

impl RetransmitSlotStats {
    pub open spec fn received_at(self, d: RootDistance) -> u64 {
        match d {
            RootDistance::Root => self.received_root,
            RootDistance::FirstLayer => self.received_first,
            RootDistance::SecondLayer => self.received_second,
        }
    }

    pub open spec fn sent_at(self, d: RootDistance) -> u64 {
        match d {
            RootDistance::Root => self.sent_root,
            RootDistance::FirstLayer => self.sent_first,
            RootDistance::SecondLayer => self.sent_second,
        }
    }

    pub open spec fn spec_zeroed() -> RetransmitSlotStats {
        RetransmitSlotStats {
            asof: 0,
            outset: 0,
            received_root: 0,
            received_first: 0,
            received_second: 0,
            sent_root: 0,
            sent_first: 0,
            sent_second: 0,
        }
    }

    pub fn zeroed() -> (r: RetransmitSlotStats)
        ensures
            r == RetransmitSlotStats::spec_zeroed(),
    {
        RetransmitSlotStats {
            asof: 0,
            outset: 0,
            received_root: 0,
            received_first: 0,
            received_second: 0,
            sent_root: 0,
            sent_first: 0,
            sent_second: 0,
        }
    }

    /// One retransmitted shred at distance `d`, targeting `num_nodes`
    /// downstream addresses, observed at `now` milliseconds.
    pub open spec fn spec_record(self, now: u64, d: RootDistance, num_nodes: u64) -> RetransmitSlotStats {
        RetransmitSlotStats {
            outset: if self.outset == 0 {
                now
            } else if self.outset <= now {
                self.outset
            } else {
                now
            },
            asof: if self.asof >= now {
                self.asof
            } else {
                now
            },
            received_root: if d == RootDistance::Root {
                sat_add(self.received_root, 1)
            } else {
                self.received_root
            },
            received_first: if d == RootDistance::FirstLayer {
                sat_add(self.received_first, 1)
            } else {
                self.received_first
            },
            received_second: if d == RootDistance::SecondLayer {
                sat_add(self.received_second, 1)
            } else {
                self.received_second
            },
            sent_root: if d == RootDistance::Root {
                sat_add(self.sent_root, num_nodes)
            } else {
                self.sent_root
            },
            sent_first: if d == RootDistance::FirstLayer {
                sat_add(self.sent_first, num_nodes)
            } else {
                self.sent_first
            },
            sent_second: if d == RootDistance::SecondLayer {
                sat_add(self.sent_second, num_nodes)
            } else {
                self.sent_second
            },
        }
    }

    pub fn record(&mut self, now: u64, d: RootDistance, num_nodes: u64)
        ensures
            *final(self) == old(self).spec_record(now, d, num_nodes),
    {
        self.outset = if self.outset == 0 {
            now
        } else if self.outset <= now {
            self.outset
        } else {
            now
        };
        self.asof = if self.asof >= now {
            self.asof
        } else {
            now
        };
        match d {
            RootDistance::Root => {
                self.received_root = self.received_root.saturating_add(1);
                self.sent_root = self.sent_root.saturating_add(num_nodes);
            },
            RootDistance::FirstLayer => {
                self.received_first = self.received_first.saturating_add(1);
                self.sent_first = self.sent_first.saturating_add(num_nodes);
            },
            RootDistance::SecondLayer => {
                self.received_second = self.received_second.saturating_add(1);
                self.sent_second = self.sent_second.saturating_add(num_nodes);
            },
        }
    }

    /// Merge law: earliest non-zero outset, latest asof, counters added
    /// pointwise.
    pub open spec fn spec_merged(a: RetransmitSlotStats, b: RetransmitSlotStats) -> RetransmitSlotStats {
        RetransmitSlotStats {
            outset: if a.outset == 0 {
                b.outset
            } else if b.outset == 0 {
                a.outset
            } else if a.outset <= b.outset {
                a.outset
            } else {
                b.outset
            },
            asof: if a.asof >= b.asof {
                a.asof
            } else {
                b.asof
            },
            received_root: sat_add(a.received_root, b.received_root),
            received_first: sat_add(a.received_first, b.received_first),
            received_second: sat_add(a.received_second, b.received_second),
            sent_root: sat_add(a.sent_root, b.sent_root),
            sent_first: sat_add(a.sent_first, b.sent_first),
            sent_second: sat_add(a.sent_second, b.sent_second),
        }
    }

    pub fn add_assign(&mut self, other: RetransmitSlotStats)
        ensures
            *final(self) == RetransmitSlotStats::spec_merged(*old(self), other),
    {
        self.outset = if self.outset == 0 {
            other.outset
        } else if other.outset == 0 {
            self.outset
        } else if self.outset <= other.outset {
            self.outset
        } else {
            other.outset
        };
        self.asof = if self.asof >= other.asof {
            self.asof
        } else {
            other.asof
        };
        self.received_root = self.received_root.saturating_add(other.received_root);
        self.received_first = self.received_first.saturating_add(other.received_first);
        self.received_second = self.received_second.saturating_add(other.received_second);
        self.sent_root = self.sent_root.saturating_add(other.sent_root);
        self.sent_first = self.sent_first.saturating_add(other.sent_first);
        self.sent_second = self.sent_second.saturating_add(other.sent_second);
    }

    /// The per-slot metrics record emitted when a slot leaves the ring.
    pub fn submit(&self, slot: u64) -> (r: SlotStatsRecord)
        ensures
            r == spec_submit_record(slot, *self),
    {
        SlotStatsRecord {
            slot,
            outset_timestamp: self.outset,
            elapsed_millis: self.asof.saturating_sub(self.outset),
            num_shreds: self.received_root.saturating_add(self.received_first).saturating_add(
                self.received_second,
            ),
            num_nodes: self.sent_root.saturating_add(self.sent_first).saturating_add(
                self.sent_second,
            ),
            num_shreds_received_root: self.received_root,
            num_shreds_received_first: self.received_first,
            num_shreds_received_second: self.received_second,
            num_shreds_sent_root: self.sent_root,
            num_shreds_sent_first: self.sent_first,
            num_shreds_sent_second: self.sent_second,
        }
    }
}

impl Default for RetransmitSlotStats {
    fn default() -> (r: RetransmitSlotStats)
        ensures
            r == RetransmitSlotStats::spec_zeroed(),
    {
        RetransmitSlotStats::zeroed()
    }
}

/// Fields of the per-slot metrics record, one counter per field.
#[derive(Clone, Copy, PartialEq, Eq, Structural, Debug)]
pub struct SlotStatsRecord {
    pub slot: u64,
    pub outset_timestamp: u64,
    pub elapsed_millis: u64,
    pub num_shreds: u64,
    pub num_nodes: u64,
    pub num_shreds_received_root: u64,
    pub num_shreds_received_first: u64,
    pub num_shreds_received_second: u64,
    pub num_shreds_sent_root: u64,
    pub num_shreds_sent_first: u64,
    pub num_shreds_sent_second: u64,
}

pub open spec fn spec_submit_record(slot: u64, s: RetransmitSlotStats) -> SlotStatsRecord {
    SlotStatsRecord {
        slot,
        outset_timestamp: s.outset,
        elapsed_millis: sat_sub(s.asof, s.outset),
        num_shreds: sat_add(sat_add(s.received_root, s.received_first), s.received_second),
        num_nodes: sat_add(sat_add(s.sent_root, s.sent_first), s.sent_second),
        num_shreds_received_root: s.received_root,
        num_shreds_received_first: s.received_first,
        num_shreds_received_second: s.received_second,
        num_shreds_sent_root: s.sent_root,
        num_shreds_sent_first: s.sent_first,
        num_shreds_sent_second: s.sent_second,
    }
}

/// Keys of an association list of per-slot counters, in entry order.
pub open spec fn keys_of(s: Seq<(u64, RetransmitSlotStats)>) -> Seq<u64>
    decreases s.len(),
{
    if s.len() == 0 {
        Seq::empty()
    } else {
        keys_of(s.drop_last()).push(s.last().0)
    }
}

/// The association list read as a map from slot to counters.
pub open spec fn map_view_of(s: Seq<(u64, RetransmitSlotStats)>) -> Map<u64, RetransmitSlotStats>
    decreases s.len(),
{
    if s.len() == 0 {
        Map::empty()
    } else {
        map_view_of(s.drop_last()).insert(s.last().0, s.last().1)
    }
}

/// Total shreds recorded at distance `d` over all entries.
pub open spec fn sum_received(s: Seq<(u64, RetransmitSlotStats)>, d: RootDistance) -> int
    decreases s.len(),
{
    if s.len() == 0 {
        0
    } else {
        sum_received(s.drop_last(), d) + s.last().1.received_at(d)
    }
}

/// Total addresses recorded at distance `d` over all entries.
pub open spec fn sum_sent(s: Seq<(u64, RetransmitSlotStats)>, d: RootDistance) -> int
    decreases s.len(),
{
    if s.len() == 0 {
        0
    } else {
        sum_sent(s.drop_last(), d) + s.last().1.sent_at(d)
    }
}

proof fn lemma_keys_index(s: Seq<(u64, RetransmitSlotStats)>, i: int)
    requires
        0 <= i < s.len(),
    ensures
        keys_of(s).len() == s.len(),
        keys_of(s)[i] == s[i].0,
    decreases s.len(),
{
    lemma_keys_len(s);
    if i < s.len() - 1 {
        lemma_keys_index(s.drop_last(), i);
    }
}

proof fn lemma_keys_len(s: Seq<(u64, RetransmitSlotStats)>)
    ensures
        keys_of(s).len() == s.len(),
    decreases s.len(),
{
    if s.len() > 0 {
        lemma_keys_len(s.drop_last());
    }
}

/// A slot is in the map view exactly when some entry carries it.
proof fn lemma_map_view_dom(s: Seq<(u64, RetransmitSlotStats)>, slot: u64)
    ensures
        map_view_of(s).dom().contains(slot) == exists|i: int|
            0 <= i < s.len() && (#[trigger] s[i]).0 == slot,
    decreases s.len(),
{
    if s.len() > 0 {
        lemma_map_view_dom(s.drop_last(), slot);
        if s.last().0 == slot {
            assert(s[s.len() - 1].0 == slot);
        } else {
            if exists|i: int| 0 <= i < s.len() && (#[trigger] s[i]).0 == slot {
                let i = choose|i: int| 0 <= i < s.len() && (#[trigger] s[i]).0 == slot;
                assert(i < s.len() - 1);
                assert(s.drop_last()[i].0 == slot);
            }
        }
    }
}

/// With no duplicate keys, the map view at an entry's key is its value.
proof fn lemma_map_view_index(s: Seq<(u64, RetransmitSlotStats)>, i: int)
    requires
        keys_of(s).no_duplicates(),
        0 <= i < s.len(),
    ensures
        map_view_of(s).dom().contains(s[i].0),
        map_view_of(s)[s[i].0] == s[i].1,
    decreases s.len(),
{
    lemma_keys_len(s);
    if i == s.len() - 1 {
    } else {
        assert(keys_of(s).drop_last() =~= keys_of(s.drop_last()));
        lemma_map_view_index(s.drop_last(), i);
        lemma_keys_index(s, i);
        lemma_keys_index(s, s.len() - 1);
        assert(s[i].0 != s.last().0);
    }
}

/// Replacing entry `i` by one with the same key updates the map view at
/// that key, keeps the key sequence, and shifts the sums by the change at
/// that entry alone.
proof fn lemma_entry_update(s: Seq<(u64, RetransmitSlotStats)>, i: int, p: (u64, RetransmitSlotStats))
    requires
        keys_of(s).no_duplicates(),
        0 <= i < s.len(),
        p.0 == s[i].0,
    ensures
        keys_of(s.update(i, p)) =~= keys_of(s),
        map_view_of(s.update(i, p)) =~= map_view_of(s).insert(p.0, p.1),
        forall|d: RootDistance| #[trigger] sum_received(s.update(i, p), d) == sum_received(s, d)
            - s[i].1.received_at(d) + p.1.received_at(d),
        forall|d: RootDistance| #[trigger] sum_sent(s.update(i, p), d) == sum_sent(s, d)
            - s[i].1.sent_at(d) + p.1.sent_at(d),
    decreases s.len(),
{
    let t = s.update(i, p);
    lemma_keys_len(s);
    lemma_keys_len(t);
    assert(keys_of(s).drop_last() =~= keys_of(s.drop_last()));
    if i == s.len() - 1 {
        assert(t.drop_last() =~= s.drop_last());
        assert(t.last() == p);
        assert(keys_of(t) =~= keys_of(s)) by {
            lemma_keys_index(s, i);
        }
        assert forall|d: RootDistance| #[trigger] sum_received(t, d) == sum_received(s, d)
            - s[i].1.received_at(d) + p.1.received_at(d) by {
            assert(sum_received(t, d) == sum_received(t.drop_last(), d) + t.last().1.received_at(d));
            assert(sum_received(s, d) == sum_received(s.drop_last(), d) + s.last().1.received_at(d));
        }
        assert forall|d: RootDistance| #[trigger] sum_sent(t, d) == sum_sent(s, d)
            - s[i].1.sent_at(d) + p.1.sent_at(d) by {
            assert(sum_sent(t, d) == sum_sent(t.drop_last(), d) + t.last().1.sent_at(d));
            assert(sum_sent(s, d) == sum_sent(s.drop_last(), d) + s.last().1.sent_at(d));
        }
    } else {
        assert(t.drop_last() =~= s.drop_last().update(i, p));
        assert(t.last() == s.last());
        assert(keys_of(s).drop_last() =~= keys_of(s.drop_last()));
        lemma_entry_update(s.drop_last(), i, p);
        assert(keys_of(t) =~= keys_of(s));
        lemma_keys_index(s, i);
        lemma_keys_index(s, s.len() - 1);
        assert(p.0 != s.last().0);
        assert(map_view_of(t) =~= map_view_of(s).insert(p.0, p.1));
        assert forall|d: RootDistance| #[trigger] sum_received(t, d) == sum_received(s, d)
            - s[i].1.received_at(d) + p.1.received_at(d) by {
            assert(sum_received(t, d) == sum_received(t.drop_last(), d) + t.last().1.received_at(d));
            assert(sum_received(s, d) == sum_received(s.drop_last(), d) + s.last().1.received_at(d));
            assert(sum_received(s.drop_last().update(i, p), d) == sum_received(s.drop_last(), d)
                - s.drop_last()[i].1.received_at(d) + p.1.received_at(d));
        }
        assert forall|d: RootDistance| #[trigger] sum_sent(t, d) == sum_sent(s, d)
            - s[i].1.sent_at(d) + p.1.sent_at(d) by {
            assert(sum_sent(t, d) == sum_sent(t.drop_last(), d) + t.last().1.sent_at(d));
            assert(sum_sent(s, d) == sum_sent(s.drop_last(), d) + s.last().1.sent_at(d));
            assert(sum_sent(s.drop_last().update(i, p), d) == sum_sent(s.drop_last(), d)
                - s.drop_last()[i].1.sent_at(d) + p.1.sent_at(d));
        }
    }
}

/// Appending an entry extends the key sequence, inserts into the map view,
/// and adds the entry's counters to the sums.
proof fn lemma_entry_push(s: Seq<(u64, RetransmitSlotStats)>, p: (u64, RetransmitSlotStats))
    ensures
        keys_of(s.push(p)) =~= keys_of(s).push(p.0),
        map_view_of(s.push(p)) == map_view_of(s).insert(p.0, p.1),
        forall|d: RootDistance| #[trigger] sum_received(s.push(p), d) == sum_received(s, d)
            + p.1.received_at(d),
        forall|d: RootDistance| #[trigger] sum_sent(s.push(p), d) == sum_sent(s, d)
            + p.1.sent_at(d),
{
    assert(s.push(p).drop_last() =~= s);
    assert(s.push(p).last() == p);
}

/// Index of the first entry of `s` carrying `slot`, or -1 if none does.
pub open spec fn spec_find_slot(s: Seq<(u64, RetransmitSlotStats)>, slot: u64) -> int
    decreases s.len(),
{
    if s.len() == 0 {
        -1
    } else if s[0].0 == slot {
        0
    } else {
        let r = spec_find_slot(s.drop_first(), slot);
        if r == -1 {
            -1
        } else {
            r + 1
        }
    }
}

/// The association list after folding one retransmitted shred at `slot`:
/// the slot's first entry absorbs it in place, or a fresh entry is
/// appended.
pub open spec fn spec_assoc_record(
    s: Seq<(u64, RetransmitSlotStats)>,
    slot: u64,
    now: u64,
    d: RootDistance,
    num_nodes: u64,
) -> Seq<(u64, RetransmitSlotStats)> {
    let i = spec_find_slot(s, slot);
    if i == -1 {
        s.push((slot, RetransmitSlotStats::spec_zeroed().spec_record(now, d, num_nodes)))
    } else {
        s.update(i, (slot, s[i].1.spec_record(now, d, num_nodes)))
    }
}

/// A scan that saw no `slot` among the first `i` entries, and `slot` at
/// `i` if it stopped there, pins `spec_find_slot`.
proof fn lemma_find_slot_at(s: Seq<(u64, RetransmitSlotStats)>, slot: u64, i: int)
    requires
        0 <= i <= s.len(),
        forall|j: int| 0 <= j < i ==> (#[trigger] s[j]).0 != slot,
        i < s.len() ==> s[i].0 == slot,
    ensures
        spec_find_slot(s, slot) == (if i < s.len() {
            i
        } else {
            -1
        }),
    decreases s.len(),
{
    if s.len() == 0 {
    } else if s[0].0 == slot {
        assert(i == 0);
    } else {
        assert(i >= 1) by {
            assert(s[0].0 != slot);
        }
        let t = s.drop_first();
        assert forall|j: int| 0 <= j < i - 1 implies (#[trigger] t[j]).0 != slot by {
            assert(t[j] == s[j + 1]);
        }
        assert(i - 1 < t.len() ==> t[i - 1].0 == slot);
        lemma_find_slot_at(t, slot, i - 1);
    }
}

proof fn lemma_find_slot_props(s: Seq<(u64, RetransmitSlotStats)>, slot: u64)
    ensures
        spec_find_slot(s, slot) == -1 || (0 <= spec_find_slot(s, slot) < s.len() && s[spec_find_slot(
            s,
            slot,
        )].0 == slot),
    decreases s.len(),
{
    if s.len() > 0 && s[0].0 != slot {
        lemma_find_slot_props(s.drop_first(), slot);
        let r = spec_find_slot(s.drop_first(), slot);
        if r != -1 {
            assert(s.drop_first()[r] == s[r + 1]);
        }
    }
}

proof fn lemma_update_sums(
    s: Seq<(u64, RetransmitSlotStats)>,
    i: int,
    p: (u64, RetransmitSlotStats),
    d: RootDistance,
)
    requires
        0 <= i < s.len(),
    ensures
        sum_received(s.update(i, p), d) == sum_received(s, d) - s[i].1.received_at(d)
            + p.1.received_at(d),
    decreases s.len(),
{
    let t = s.update(i, p);
    if i == s.len() - 1 {
        assert(t.drop_last() =~= s.drop_last());
        assert(t.last() == p);
    } else {
        assert(t.drop_last() =~= s.drop_last().update(i, p));
        assert(t.last() == s.last());
        lemma_update_sums(s.drop_last(), i, p, d);
    }
}

/// Folding one shred into the association list raises the received count
/// at its distance by exactly one and leaves the other distances alone.
pub proof fn lemma_assoc_record_sums(
    s: Seq<(u64, RetransmitSlotStats)>,
    slot: u64,
    now: u64,
    d0: RootDistance,
    num_nodes: u64,
    d: RootDistance,
)
    requires
        sum_received(s, d0) < u64::MAX,
    ensures
        sum_received(spec_assoc_record(s, slot, now, d0, num_nodes), d) == sum_received(s, d) + (
        if d == d0 {
            1int
        } else {
            0int
        }),
{
    lemma_find_slot_props(s, slot);
    let i = spec_find_slot(s, slot);
    if i == -1 {
        let st = RetransmitSlotStats::spec_zeroed().spec_record(now, d0, num_nodes);
        let t = s.push((slot, st));
        assert(t.drop_last() =~= s);
        assert(t.last() == (slot, st));
    } else {
        lemma_entry_le_sums(s, i, d0);
        let st = s[i].1.spec_record(now, d0, num_nodes);
        lemma_update_sums(s, i, (slot, st), d);
    }
}

/// Association list from slot to per-slot counters: the per-batch fold
/// accumulator. Entry order is immaterial to its map view.
pub struct SlotStatsMap {
    pub entries: Vec<(u64, RetransmitSlotStats)>,
}

impl SlotStatsMap {
    pub open spec fn wf(self) -> bool {
        keys_of(self.entries@).no_duplicates()
    }

    pub open spec fn view_map(self) -> Map<u64, RetransmitSlotStats> {
        map_view_of(self.entries@)
    }

    pub fn new() -> (r: SlotStatsMap)
        ensures
            r.wf(),
            r.view_map() == Map::<u64, RetransmitSlotStats>::empty(),
            r.entries@.len() == 0,
    {
        SlotStatsMap { entries: Vec::new() }
    }

    /// Index of the first entry carrying `slot`, if any.
    fn find(&self, slot: u64) -> (r: Option<usize>)
        ensures
            match r {
                Some(i) => i < self.entries@.len() && self.entries@[i as int].0 == slot && (forall|
                    j: int,
                |
                    0 <= j < i ==> (#[trigger] self.entries@[j]).0 != slot),
                None => forall|i: int| 0 <= i < self.entries@.len() ==> (#[trigger] self.entries@[i]).0
                    != slot,
            },
    {
        let mut i: usize = 0;
        while i < self.entries.len()
            invariant
                i <= self.entries@.len(),
                forall|j: int| 0 <= j < i ==> (#[trigger] self.entries@[j]).0 != slot,
            decreases self.entries@.len() - i,
        {
            if self.entries[i].0 == slot {
                return Some(i);
            }
            i = i + 1;
        }
        None
    }

    /// Fold one retransmitted shred into the accumulator: the slot's entry
    /// (fresh if absent) absorbs one shred at distance `d` with `num_nodes`
    /// targets. The bound on the received sum keeps the shred count exact.
    pub fn record_into(&mut self, slot: u64, now: u64, d: RootDistance, num_nodes: u64)
        requires
            old(self).wf(),
            sum_received(old(self).entries@, d) < u64::MAX,
        ensures
            final(self).wf(),
            final(self).entries@ == spec_assoc_record(old(self).entries@, slot, now, d, num_nodes),
            final(self).view_map() == old(self).view_map().insert(
                slot,
                (if old(self).view_map().dom().contains(slot) {
                    old(self).view_map()[slot]
                } else {
                    RetransmitSlotStats::spec_zeroed()
                }).spec_record(now, d, num_nodes),
            ),
            forall|d2: RootDistance| #[trigger] sum_received(final(self).entries@, d2)
                == sum_received(old(self).entries@, d2) + (if d2 == d {
                1int
            } else {
                0int
            }),
            forall|d2: RootDistance| d2 != d ==> #[trigger] sum_sent(final(self).entries@, d2)
                == sum_sent(old(self).entries@, d2),
            sum_sent(old(self).entries@, d) + num_nodes <= u64::MAX ==> sum_sent(
                final(self).entries@,
                d,
            ) == sum_sent(old(self).entries@, d) + num_nodes,
    {
        let ghost s0 = self.entries@;
        match self.find(slot) {
            Some(i) => {
                let prev = self.entries[i].1;
                let mut st = prev;
                st.record(now, d, num_nodes);
                self.entries[i] = (slot, st);
                proof {
                    lemma_find_slot_at(s0, slot, i as int);
                    lemma_map_view_index(s0, i as int);
                    lemma_entry_le_sums(s0, i as int, d);
                    lemma_entry_update(s0, i as int, (slot, st));
                }
            },
            None => {
                let mut st = RetransmitSlotStats::zeroed();
                st.record(now, d, num_nodes);
                self.entries.push((slot, st));
                proof {
                    lemma_find_slot_at(s0, slot, s0.len() as int);
                    lemma_map_view_dom(s0, slot);
                    lemma_entry_push(s0, (slot, st));
                    lemma_keys_len(s0);
                    assert(keys_of(self.entries@).no_duplicates()) by {
                        assert forall|i: int, j: int|
                            0 <= i < j < keys_of(self.entries@).len() implies keys_of(
                            self.entries@,
                        )[i] != keys_of(self.entries@)[j] by {
                            if j == keys_of(self.entries@).len() - 1 {
                                lemma_keys_index(s0, i);
                            } else {
                                lemma_keys_index(s0, i);
                                lemma_keys_index(s0, j);
                            }
                        }
                    }
                }
            },
        }
    }

    /// Fold a whole per-slot entry into the accumulator, merging with the
    /// slot's entry if one exists.
    pub fn add_entry(&mut self, slot: u64, stats: RetransmitSlotStats)
        requires
            old(self).wf(),
        ensures
            final(self).wf(),
            final(self).view_map() == old(self).view_map().insert(
                slot,
                if old(self).view_map().dom().contains(slot) {
                    RetransmitSlotStats::spec_merged(old(self).view_map()[slot], stats)
                } else {
                    stats
                },
            ),
    {
        let ghost s0 = self.entries@;
        match self.find(slot) {
            Some(i) => {
                let mut st = self.entries[i].1;
                st.add_assign(stats);
                self.entries[i] = (slot, st);
                proof {
                    lemma_map_view_index(s0, i as int);
                    lemma_entry_update(s0, i as int, (slot, st));
                }
            },
            None => {
                self.entries.push((slot, stats));
                proof {
                    lemma_map_view_dom(s0, slot);
                    lemma_entry_push(s0, (slot, stats));
                    lemma_keys_len(s0);
                    assert(keys_of(self.entries@).no_duplicates()) by {
                        assert forall|i: int, j: int|
                            0 <= i < j < keys_of(self.entries@).len() implies keys_of(
                            self.entries@,
                        )[i] != keys_of(self.entries@)[j] by {
                            if j == keys_of(self.entries@).len() - 1 {
                                lemma_keys_index(s0, i);
                            } else {
                                lemma_keys_index(s0, i);
                                lemma_keys_index(s0, j);
                            }
                        }
                    }
                }
            },
        }
    }

    pub fn len(&self) -> (r: usize)
        ensures
            r == self.entries@.len(),
    {
        self.entries.len()
    }
}

/// The map that results from folding every entry of `feed` into `acc`.
pub open spec fn spec_merged_maps(
    acc: Map<u64, RetransmitSlotStats>,
    feed: Seq<(u64, RetransmitSlotStats)>,
) -> Map<u64, RetransmitSlotStats>
    decreases feed.len(),
{
    if feed.len() == 0 {
        acc
    } else {
        let m = spec_merged_maps(acc, feed.drop_last());
        let p = feed.last();
        m.insert(
            p.0,
            if m.dom().contains(p.0) {
                RetransmitSlotStats::spec_merged(m[p.0], p.1)
            } else {
                p.1
            },
        )
    }
}

/// Merge two per-slot accumulators, entry by entry.
pub fn merge(acc: SlotStatsMap, other: SlotStatsMap) -> (r: SlotStatsMap)
    requires
        acc.wf(),
        other.wf(),
    ensures
        r.wf(),
        r.view_map() == spec_merged_maps(acc.view_map(), other.entries@),
{
    let ghost acc_map = acc.view_map();
    let mut out = acc;
    let mut i: usize = 0;
    while i < other.entries.len()
        invariant
            out.wf(),
            i <= other.entries@.len(),
            other.wf(),
            out.view_map() == spec_merged_maps(acc_map, other.entries@.take(i as int)),
        decreases other.entries@.len() - i,
    {
        let (slot, stats) = other.entries[i];
        out.add_entry(slot, stats);
        proof {
            assert(other.entries@.take(i + 1).drop_last() =~= other.entries@.take(i as int));
            assert(other.entries@.take(i + 1).last() == other.entries@[i as int]);
        }
        i = i + 1;
    }
    proof {
        assert(other.entries@.take(other.entries@.len() as int) =~= other.entries@);
    }
    out
}

proof fn lemma_sums_nonneg(s: Seq<(u64, RetransmitSlotStats)>, d: RootDistance)
    ensures
        sum_received(s, d) >= 0,
        sum_sent(s, d) >= 0,
    decreases s.len(),
{
    if s.len() > 0 {
        lemma_sums_nonneg(s.drop_last(), d);
    }
}

/// One entry's counters never exceed the totals over all entries.
proof fn lemma_entry_le_sums(s: Seq<(u64, RetransmitSlotStats)>, i: int, d: RootDistance)
    requires
        0 <= i < s.len(),
    ensures
        s[i].1.received_at(d) <= sum_received(s, d),
        s[i].1.sent_at(d) <= sum_sent(s, d),
    decreases s.len(),
{
    if i == s.len() - 1 {
        lemma_sums_nonneg(s.drop_last(), d);
    } else {
        lemma_entry_le_sums(s.drop_last(), i, d);
        assert(s.last().1.received_at(d) >= 0);
    }
}

} // verus!
