use vstd::prelude::*;

verus! {

/// Once the tracker holds more slots than this, an insertion prunes it to
/// the slots above the current root.
pub const FIRST_SHREDS_PRUNE_THRESHOLD: usize = 100;

/// Set of slot numbers for which a shred has already been seen. Only slots
/// above the finalized root are tracked.
pub struct FirstShredTracker {
    pub slots: Vec<u64>,
}

proof fn lemma_push_contains(s: Seq<u64>, x: u64)
    ensures
        forall|y: u64| #[trigger] s.push(x).contains(y) == (s.contains(y) || y == x),
{
    assert forall|y: u64| #[trigger] s.push(x).contains(y) == (s.contains(y) || y == x) by {
        if s.push(x).contains(y) {
            let i = choose|i: int| 0 <= i < s.push(x).len() && s.push(x)[i] == y;
            if i < s.len() {
                assert(s[i] == y);
            }
        }
        if s.contains(y) {
            let i = choose|i: int| 0 <= i < s.len() && s[i] == y;
            assert(s.push(x)[i] == y);
        }
        assert(s.push(x)[s.len() as int] == x);
    }
}

proof fn lemma_push_no_dup(s: Seq<u64>, x: u64)
    requires
        s.no_duplicates(),
        !s.contains(x),
    ensures
        s.push(x).no_duplicates(),
{
    assert forall|i: int, j: int|
        0 <= i < j < s.push(x).len() implies s.push(x)[i] != s.push(x)[j] by {
        if j < s.len() {
        } else {
            assert(s[i] == s.push(x)[i]);
            if s.push(x)[i] == x {
                assert(s.contains(x));
            }
        }
    }
}

/// What one `observe` call guarantees: the result says whether the slot was
/// fresh and above the root, a stale or known slot leaves the tracker
/// unchanged, and a novel slot is added, with the tracker pruned to the
/// slots above the root whenever it has outgrown the threshold.
#[verifier::opaque]
pub open spec fn observe_rel(
    pre: FirstShredTracker,
    post: FirstShredTracker,
    shred_slot: u64,
    root_slot: u64,
    novel: bool,
) -> bool {
    &&& novel == (shred_slot > root_slot && !pre.spec_contains(shred_slot))
    &&& (!novel ==> post.slots@ == pre.slots@)
    &&& (novel ==> (if pre.slots@.len() + 1 > FIRST_SHREDS_PRUNE_THRESHOLD {
        forall|x: u64| #[trigger] post.spec_contains(x) == ((pre.spec_contains(x) || x
            == shred_slot) && x > root_slot)
    } else {
        forall|x: u64| #[trigger] post.spec_contains(x) == (pre.spec_contains(x) || x
            == shred_slot)
    }))
    &&& (novel ==> post.spec_contains(shred_slot))
}

impl FirstShredTracker {
    pub open spec fn wf(self) -> bool {
        self.slots@.no_duplicates()
    }

    pub open spec fn spec_contains(self, slot: u64) -> bool {
        self.slots@.contains(slot)
    }

    pub fn new() -> (r: FirstShredTracker)
        ensures
            r.wf(),
            r.slots@.len() == 0,
    {
        FirstShredTracker { slots: Vec::new() }
    }

    fn contains_slot(&self, slot: u64) -> (r: bool)
        ensures
            r == self.spec_contains(slot),
    {
        let mut i: usize = 0;
        while i < self.slots.len()
            invariant
                i <= self.slots@.len(),
                forall|j: int| 0 <= j < i ==> self.slots@[j] != slot,
            decreases self.slots@.len() - i,
        {
            if self.slots[i] == slot {
                return true;
            }
            i = i + 1;
        }
        false
    }

    /// Retain only the slots above `root_slot`.
    fn prune(&mut self, root_slot: u64)
        requires
            old(self).wf(),
        ensures
            final(self).wf(),
            forall|x: u64| #[trigger] final(self).spec_contains(x) == (old(self).spec_contains(x)
                && x > root_slot),
    {
        let ghost s0 = self.slots@;
        let mut kept: Vec<u64> = Vec::new();
        let mut i: usize = 0;
        while i < self.slots.len()
            invariant
                self.slots@ == s0,
                s0.no_duplicates(),
                i <= s0.len(),
                kept@.no_duplicates(),
                forall|x: u64| #[trigger] kept@.contains(x) == (s0.take(i as int).contains(x) && x
                    > root_slot),
            decreases s0.len() - i,
        {
            let v = self.slots[i];
            if v > root_slot {
                proof {
                    lemma_push_contains(kept@, v);
                    if kept@.contains(v) {
                        assert(s0.take(i as int).contains(v));
                        let idx = choose|idx: int|
                            0 <= idx < i && s0.take(i as int)[idx] == v;
                        assert(s0[idx] == s0[i as int]);
                    }
                    lemma_push_no_dup(kept@, v);
                }
                kept.push(v);
            }
            proof {
                let t1 = s0.take(i + 1);
                let t0 = s0.take(i as int);
                assert forall|x: u64| #[trigger] kept@.contains(x) == (t1.contains(x) && x
                    > root_slot) by {
                    assert(t1[i as int] == s0[i as int]);
                    if t1.contains(x) {
                        let idx = choose|idx: int| 0 <= idx < t1.len() && t1[idx] == x;
                        if idx < i {
                            assert(t0[idx] == x);
                        } else {
                            assert(x == s0[i as int]);
                        }
                    }
                    if t0.contains(x) {
                        let idx = choose|idx: int| 0 <= idx < t0.len() && t0[idx] == x;
                        assert(t1[idx] == x);
                    }
                }
            }
            i = i + 1;
        }
        proof {
            assert(s0.take(s0.len() as int) =~= s0);
        }
        self.slots = kept;
    }

    /// Returns true iff this is the first time a shred for `shred_slot` is
    /// seen, the slot being above the finalized root. A novel slot is
    /// remembered; once the tracker outgrows the threshold it is pruned to
    /// the slots above the root.
    pub fn observe(&mut self, shred_slot: u64, root_slot: u64) -> (novel: bool)
        requires
            old(self).wf(),
        ensures
            final(self).wf(),
            observe_rel(*old(self), *final(self), shred_slot, root_slot, novel),
    {
        proof {
            reveal(observe_rel);
        }
        if shred_slot <= root_slot {
            return false;
        }
        if self.contains_slot(shred_slot) {
            return false;
        }
        proof {
            lemma_push_contains(self.slots@, shred_slot);
            lemma_push_no_dup(self.slots@, shred_slot);
        }
        self.slots.push(shred_slot);
        if self.slots.len() > FIRST_SHREDS_PRUNE_THRESHOLD {
            self.prune(root_slot);
        }
        true
    }
}

/// First-shred uniqueness: while a slot stays tracked, `observe` never
/// reports it novel again.
pub proof fn lemma_tracked_slot_not_novel(
    t: FirstShredTracker,
    post: FirstShredTracker,
    shred_slot: u64,
    root_slot: u64,
    novel: bool,
)
    requires
        t.spec_contains(shred_slot),
        observe_rel(t, post, shred_slot, root_slot, novel),
    ensures
        !novel,
{
    reveal(observe_rel);
}

/// First-shred uniqueness for back-to-back calls: a slot just reported
/// novel is reported known by the next `observe` of the same slot.
pub proof fn lemma_first_shred_unique(
    pre: FirstShredTracker,
    mid: FirstShredTracker,
    post: FirstShredTracker,
    shred_slot: u64,
    root_first: u64,
    root_second: u64,
    novel_first: bool,
    novel_second: bool,
)
    requires
        observe_rel(pre, mid, shred_slot, root_first, novel_first),
        novel_first,
        observe_rel(mid, post, shred_slot, root_second, novel_second),
    ensures
        !novel_second,
{
    reveal(observe_rel);
}

} // verus!
