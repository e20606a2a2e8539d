use vstd::prelude::*;
use crate::shred::{Shred, ShredId, spec_kind_code, kind_code};

verus! {

/// Number of distinct encodings of one logical shred position that the
/// deduper admits per filter epoch: enough for the cluster to detect an
/// equivocating leader, while bounding amplification of duplicates.
pub const MAX_DUPLICATE_COUNT: u64 = 2;

/// Default number of bits per filter.
pub const DEDUPER_NUM_BITS: u64 = 637534199;

/// Reciprocal of the false-positive target rate (one in a thousand).
pub const DEDUPER_FPR_RECIP: u64 = 1000;

/// Rebuild interval for the filters, in milliseconds (five minutes).
pub const DEDUPER_RESET_CYCLE_MS: u64 = 300000;

/// Largest number of filter bits the saturation test supports: keeps the
/// 128-bit arithmetic of `saturation_exceeds_target` free of overflow.
pub const DEDUPER_MAX_NUM_BITS: u64 = 0x100000000000000;

/// Probabilistic set over raw shred payload bytes. The backing filter tests
/// and inserts a key in one atomic pass over its bit positions.
#[verifier::external_body]
pub struct PayloadFilter {
    inner: solana_perf::deduper::Deduper<2, [u8]>,
}

/// Probabilistic set over `(slot, index, kind, k)` keys, `k` ranging over the
/// per-position duplicate budget.
#[verifier::external_body]
pub struct IdFilter {
    inner: solana_perf::deduper::Deduper<2, (u64, u32, u8, u64)>,
}

/// The payload keys the filter currently reports as present: exactly those
/// whose bit positions are all set. Inserting one key may make further keys
/// reported present (a false positive), so the set only ever grows between
/// rebuilds; it never loses a key that was inserted.
pub uninterp spec fn payload_filter_covered(f: PayloadFilter) -> Set<Seq<u8>>;

/// The id keys the filter currently reports as present; grows like
/// `payload_filter_covered`.
pub uninterp spec fn id_filter_covered(f: IdFilter) -> Set<(u64, u32, u8, u64)>;

/// Relies on `solana_perf::deduper::Deduper::<2, [u8]>::new`: the new
/// filter's bit array is all zero, so no key is reported present. The seed
/// drives the hash states through a seeded generator. The bounds on
/// `num_bits` keep the callee's size arithmetic from panicking and give a
/// nonzero modulus to the test-and-insert operation.
#[verifier::external_body]
pub(crate) fn payload_filter_new(seed: [u8; 32], num_bits: u64) -> (f: PayloadFilter)
    requires
        1 <= num_bits <= DEDUPER_MAX_NUM_BITS,
    ensures
        payload_filter_covered(f) == Set::<Seq<u8>>::empty(),
{
    let mut rng = <rand_chacha::ChaChaRng as rand::SeedableRng>::from_seed(seed);
    PayloadFilter { inner: solana_perf::deduper::Deduper::new(&mut rng, num_bits) }
}

/// Relies on `solana_perf::deduper::Deduper::<2, _>::new`, as
/// `payload_filter_new` does.
#[verifier::external_body]
pub(crate) fn id_filter_new(seed: [u8; 32], num_bits: u64) -> (f: IdFilter)
    requires
        1 <= num_bits <= DEDUPER_MAX_NUM_BITS,
    ensures
        id_filter_covered(f) == Set::<(u64, u32, u8, u64)>::empty(),
{
    let mut rng = <rand_chacha::ChaChaRng as rand::SeedableRng>::from_seed(seed);
    IdFilter { inner: solana_perf::deduper::Deduper::new(&mut rng, num_bits) }
}

/// Relies on `solana_perf::deduper::Deduper::dedup`: it atomically
/// fetch-or's the key's bit positions and returns true exactly when all of
/// them were already set, that is when the key was reported present before
/// the call. Afterwards the key's positions are set, so the key is reported
/// present, and no bit is ever cleared, so everything reported present
/// before stays so. A key already reported present has all its positions
/// set, so the fetch-or changes no bit and the filter is left as it was.
#[verifier::external_body]
pub(crate) fn payload_filter_test_and_insert(f: &mut PayloadFilter, payload: &Vec<u8>) -> (dup: bool)
    ensures
        dup == payload_filter_covered(*old(f)).contains(payload@),
        payload_filter_covered(*final(f)).contains(payload@),
        payload_filter_covered(*old(f)).subset_of(payload_filter_covered(*final(f))),
        dup ==> *final(f) == *old(f),
{
    f.inner.dedup(payload.as_slice())
}

/// Relies on `solana_perf::deduper::Deduper::dedup`, as
/// `payload_filter_test_and_insert` does, for the id filter's key tuples;
/// an already-present key likewise leaves the filter unchanged.
#[verifier::external_body]
pub(crate) fn id_filter_test_and_insert(
    f: &mut IdFilter,
    slot: u64,
    index: u32,
    kind: u8,
    k: u64,
) -> (dup: bool)
    ensures
        dup == id_filter_covered(*old(f)).contains((slot, index, kind, k)),
        id_filter_covered(*final(f)).contains((slot, index, kind, k)),
        id_filter_covered(*old(f)).subset_of(id_filter_covered(*final(f))),
        dup ==> *final(f) == *old(f),
{
    f.inner.dedup(&(slot, index, kind, k))
}

/// The id filter key under which encoding number `k` of position `id` is
/// recorded.
pub open spec fn id_key(id: ShredId, k: u64) -> (u64, u32, u8, u64) {
    (id.slot, id.index, spec_kind_code(id.kind), k)
}

/// The encoding numbers below `max` that the id filter already reports
/// taken for position `id`.
pub open spec fn taken_slots(f: IdFilter, id: ShredId, max: u64) -> Set<int> {
    Set::new(|k: int| 0 <= k < max && id_filter_covered(f).contains(id_key(id, k as u64)))
}

/// All encoding numbers below `max` are already taken for position `id`.
pub open spec fn id_slots_full(f: IdFilter, id: ShredId, max: u64) -> bool {
    forall|k: u64| k < max ==> id_filter_covered(f).contains(#[trigger] id_key(id, k))
}

pub proof fn lemma_taken_slots_card(f: IdFilter, id: ShredId, max: u64)
    ensures
        taken_slots(f, id, max).finite(),
        taken_slots(f, id, max).len() <= max,
{
    let range = vstd::set_lib::set_int_range(0, max as int);
    vstd::set_lib::lemma_int_range(0, max as int);
    assert(taken_slots(f, id, max).subset_of(range));
    vstd::set_lib::lemma_len_subset(taken_slots(f, id, max), range);
}

pub proof fn lemma_taken_slots_monotone(f1: IdFilter, f2: IdFilter, id: ShredId, max: u64)
    requires
        id_filter_covered(f1).subset_of(id_filter_covered(f2)),
    ensures
        taken_slots(f1, id, max).subset_of(taken_slots(f2, id, max)),
{
}

/// Two-stage shred deduplicating filter, the two filters independently
/// seeded. The payload filter drops exact replays; the id filter admits at
/// most `MAX_DUPLICATE_COUNT` distinct encodings per logical shred
/// position per filter epoch. Each filter is rebuilt with fresh seeds once
/// its stored-element count implies the false-positive rate would exceed
/// the target, at most once per cycle.
pub struct ShredDeduper {
    pub payload_filter: PayloadFilter,
    pub id_filter: IdFilter,
    pub num_bits: u64,
    /// Elements stored in the payload filter since its last rebuild,
    /// clamped at `num_bits`.
    pub payload_count: u64,
    /// Elements stored in the id filter since its last rebuild, clamped at
    /// `num_bits`.
    pub id_count: u64,
    pub payload_reset_ms: u64,
    pub id_reset_ms: u64,
}

/// With `count` stored elements over `num_bits` bits and two probes per
/// key, at most `2 * count` bits are set, so the false-positive rate is at
/// most `(2 * count / num_bits)^2`; it exceeds the one-in-
/// `DEDUPER_FPR_RECIP` target once that square does.
pub open spec fn spec_saturation_exceeds_target(count: u64, num_bits: u64) -> bool {
    4 * DEDUPER_FPR_RECIP * count * count >= num_bits * num_bits
}

impl ShredDeduper {
    pub open spec fn wf(self) -> bool {
        &&& 1 <= self.num_bits <= DEDUPER_MAX_NUM_BITS
        &&& self.payload_count <= self.num_bits
        &&& self.id_count <= self.num_bits
    }

    pub fn new(payload_seed: [u8; 32], id_seed: [u8; 32], num_bits: u64, now_ms: u64) -> (d: ShredDeduper)
        requires
            1 <= num_bits <= DEDUPER_MAX_NUM_BITS,
        ensures
            d.wf(),
            payload_filter_covered(d.payload_filter) == Set::<Seq<u8>>::empty(),
            id_filter_covered(d.id_filter) == Set::<(u64, u32, u8, u64)>::empty(),
            d.num_bits == num_bits,
            d.payload_count == 0,
            d.id_count == 0,
            d.payload_reset_ms == now_ms,
            d.id_reset_ms == now_ms,
    {
        ShredDeduper {
            payload_filter: payload_filter_new(payload_seed, num_bits),
            id_filter: id_filter_new(id_seed, num_bits),
            num_bits,
            payload_count: 0,
            id_count: 0,
            payload_reset_ms: now_ms,
            id_reset_ms: now_ms,
        }
    }

    fn saturation_exceeds_target(count: u64, num_bits: u64) -> (r: bool)
        requires
            num_bits <= DEDUPER_MAX_NUM_BITS,
            count <= num_bits,
        ensures
            r == spec_saturation_exceeds_target(count, num_bits),
    {
        let c: u128 = count as u128;
        let n: u128 = num_bits as u128;
        proof {
            assert(4 * (DEDUPER_FPR_RECIP as int) == 4000);
            assert(4000 * (c as int) <= 4000 * 0x100000000000000) by (nonlinear_arith)
                requires
                    0 <= c as int <= 0x100000000000000,
            ;
            assert(4000 * (c as int) * (c as int) <= 4000 * 0x100000000000000
                * 0x100000000000000) by (nonlinear_arith)
                requires
                    0 <= c as int <= 0x100000000000000,
            ;
            assert((n as int) * (n as int) <= 0x100000000000000 * 0x100000000000000)
                by (nonlinear_arith)
                requires
                    0 <= n as int <= 0x100000000000000,
            ;
        }
        let lhs: u128 = 4 * (DEDUPER_FPR_RECIP as u128) * c * c;
        let rhs: u128 = n * n;
        lhs >= rhs
    }

    /// Rebuild either filter with fresh seeds if both hold: its
    /// stored-element count implies the false-positive rate would exceed
    /// the target, and at least `cycle_ms` has elapsed since its last
    /// rebuild.
    pub fn maybe_reset(&mut self, payload_seed: [u8; 32], id_seed: [u8; 32], now_ms: u64, cycle_ms: u64)
        requires
            old(self).wf(),
        ensures
            final(self).wf(),
            reset_step(*old(self), *final(self), now_ms, cycle_ms),
    {
        if Self::saturation_exceeds_target(self.payload_count, self.num_bits)
            && now_ms >= self.payload_reset_ms && now_ms - self.payload_reset_ms >= cycle_ms
        {
            self.payload_filter = payload_filter_new(payload_seed, self.num_bits);
            self.payload_count = 0;
            self.payload_reset_ms = now_ms;
        }
        if Self::saturation_exceeds_target(self.id_count, self.num_bits)
            && now_ms >= self.id_reset_ms && now_ms - self.id_reset_ms >= cycle_ms
        {
            self.id_filter = id_filter_new(id_seed, self.num_bits);
            self.id_count = 0;
            self.id_reset_ms = now_ms;
        }
    }

    /// Returns true iff the shred should be dropped. An exact payload
    /// replay is always dropped; otherwise the shred is admitted iff some
    /// encoding number below `max_duplicate_count` is still free for its
    /// position, and admission takes that number.
    #[verifier::loop_isolation(false)]
    pub fn dedup(&mut self, shred: &Shred, max_duplicate_count: u64) -> (dup: bool)
        requires
            old(self).wf(),
        ensures
            final(self).wf(),
            dedup_step(*old(self), *final(self), *shred, max_duplicate_count, dup),
    {
        proof {
            reveal(dedup_step);
        }
        let ghost pre = *old(self);
        let id = shred.id();
        let payload_dup = payload_filter_test_and_insert(&mut self.payload_filter, &shred.payload);
        if payload_dup {
            return true;
        }
        if self.payload_count < self.num_bits {
            self.payload_count = self.payload_count + 1;
        }
        let kc = kind_code(shred.kind);
        let mut k: u64 = 0;
        while k < max_duplicate_count
            invariant
                self.wf(),
                k <= max_duplicate_count,
                id == shred.spec_id(),
                kc == spec_kind_code(shred.kind),
                self.num_bits == pre.num_bits,
                self.payload_reset_ms == pre.payload_reset_ms,
                self.id_reset_ms == pre.id_reset_ms,
                !payload_filter_covered(pre.payload_filter).contains(shred.payload@),
                payload_filter_covered(self.payload_filter).contains(shred.payload@),
                payload_filter_covered(pre.payload_filter).subset_of(
                    payload_filter_covered(self.payload_filter),
                ),
                self.id_filter == pre.id_filter,
                forall|j: u64| j < k ==> id_filter_covered(pre.id_filter).contains(
                    #[trigger] id_key(id, j),
                ),
            decreases max_duplicate_count - k,
        {
            let id_dup = id_filter_test_and_insert(
                &mut self.id_filter,
                shred.slot,
                shred.index,
                kc,
                k,
            );
            if !id_dup {
                if self.id_count < self.num_bits {
                    self.id_count = self.id_count + 1;
                }
                proof {
                    assert(!id_filter_covered(pre.id_filter).contains(id_key(id, k)));
                    lemma_admission(pre, *self, *shred, max_duplicate_count, k);
                }
                return false;
            }
            k = k + 1;
        }
        true
    }
}

/// What one `maybe_reset` call guarantees: each filter is either rebuilt
/// empty (exactly when its saturation and cycle conditions hold) or left
/// as it was.
pub open spec fn reset_step(
    pre: ShredDeduper,
    post: ShredDeduper,
    now_ms: u64,
    cycle_ms: u64,
) -> bool {
    &&& post.num_bits == pre.num_bits
    &&& ({
        let due = spec_saturation_exceeds_target(pre.payload_count, pre.num_bits) && now_ms
            >= pre.payload_reset_ms && now_ms - pre.payload_reset_ms >= cycle_ms;
        if due {
            payload_filter_covered(post.payload_filter) == Set::<Seq<u8>>::empty()
                && post.payload_count == 0 && post.payload_reset_ms == now_ms
        } else {
            post.payload_filter == pre.payload_filter && post.payload_count == pre.payload_count
                && post.payload_reset_ms == pre.payload_reset_ms
        }
    })
    &&& ({
        let due = spec_saturation_exceeds_target(pre.id_count, pre.num_bits) && now_ms
            >= pre.id_reset_ms && now_ms - pre.id_reset_ms >= cycle_ms;
        if due {
            id_filter_covered(post.id_filter) == Set::<(u64, u32, u8, u64)>::empty()
                && post.id_count == 0 && post.id_reset_ms == now_ms
        } else {
            post.id_filter == pre.id_filter && post.id_count == pre.id_count
                && post.id_reset_ms == pre.id_reset_ms
        }
    })
}

/// What one `dedup` call guarantees: the shred is dropped exactly when
/// its payload was already reported present or its position's whole
/// duplicate budget was already taken; an admission consumes one
/// previously free encoding number; a drop leaves the id filter as it
/// was; and what either filter reports present only grows.
pub open spec fn dedup_step(
    pre: ShredDeduper,
    post: ShredDeduper,
    shred: Shred,
    max: u64,
    dup: bool,
) -> bool {
    &&& dup == (payload_filter_covered(pre.payload_filter).contains(shred.payload@)
        || id_slots_full(pre.id_filter, shred.spec_id(), max))
    &&& payload_filter_covered(post.payload_filter).contains(shred.payload@)
    &&& payload_filter_covered(pre.payload_filter).subset_of(
        payload_filter_covered(post.payload_filter),
    )
    &&& id_filter_covered(pre.id_filter).subset_of(id_filter_covered(post.id_filter))
    &&& (dup ==> post.id_filter == pre.id_filter)
    &&& (!dup ==> taken_slots(pre.id_filter, shred.spec_id(), max).len() < max)
    &&& (!dup ==> taken_slots(pre.id_filter, shred.spec_id(), max).len() < taken_slots(
        post.id_filter,
        shred.spec_id(),
        max,
    ).len())
    &&& post.num_bits == pre.num_bits
    &&& post.payload_reset_ms == pre.payload_reset_ms
    &&& post.id_reset_ms == pre.id_reset_ms
}

/// On admission at encoding number `k`, the taken-slot set strictly grows.
proof fn lemma_admission(pre: ShredDeduper, post: ShredDeduper, shred: Shred, max: u64, k: u64)
    requires
        k < max,
        !id_filter_covered(pre.id_filter).contains(id_key(shred.spec_id(), k)),
        id_filter_covered(post.id_filter).contains(id_key(shred.spec_id(), k)),
        id_filter_covered(pre.id_filter).subset_of(id_filter_covered(post.id_filter)),
    ensures
        taken_slots(pre.id_filter, shred.spec_id(), max).len() < max,
        taken_slots(pre.id_filter, shred.spec_id(), max).len() < taken_slots(
            post.id_filter,
            shred.spec_id(),
            max,
        ).len(),
{
    let id = shred.spec_id();
    let pre_taken = taken_slots(pre.id_filter, id, max);
    let post_taken = taken_slots(post.id_filter, id, max);
    lemma_taken_slots_card(pre.id_filter, id, max);
    lemma_taken_slots_card(post.id_filter, id, max);
    lemma_taken_slots_monotone(pre.id_filter, post.id_filter, id, max);
    assert(!pre_taken.contains(k as int));
    assert(post_taken.contains(k as int));
    assert(pre_taken.subset_of(post_taken.remove(k as int)));
    vstd::set_lib::lemma_len_subset(pre_taken, post_taken.remove(k as int));
    let range = vstd::set_lib::set_int_range(0, max as int);
    vstd::set_lib::lemma_int_range(0, max as int);
    assert(pre_taken.subset_of(range.remove(k as int)));
    vstd::set_lib::lemma_len_subset(pre_taken, range.remove(k as int));
}

/// Number of admissions (calls that returned "keep") in a run of dedup
/// results.
pub open spec fn count_admissions(dups: Seq<bool>) -> int
    decreases dups.len(),
{
    if dups.len() == 0 {
        0
    } else {
        (if dups[0] { 0int } else { 1int }) + count_admissions(dups.drop_first())
    }
}

/// Duplicate admission bound: over any run of `dedup` calls on shreds of
/// one logical position `id`, with no filter rebuild in between, at most
/// `max` calls admit their shred. Each state pair and result in the run is
/// related by `dedup_step`, which is what `ShredDeduper::dedup` ensures.
pub proof fn lemma_duplicate_admission_bound(
    states: Seq<ShredDeduper>,
    shreds: Seq<Shred>,
    dups: Seq<bool>,
    id: ShredId,
    max: u64,
)
    requires
        states.len() == dups.len() + 1,
        shreds.len() == dups.len(),
        forall|i: int| 0 <= i < dups.len() ==> dedup_step(
            #[trigger] states[i],
            states[i + 1],
            shreds[i],
            max,
            dups[i],
        ),
        forall|i: int| 0 <= i < dups.len() ==> #[trigger] shreds[i].spec_id() == id,
    ensures
        count_admissions(dups) + taken_slots(states[0].id_filter, id, max).len() <= max,
        count_admissions(dups) <= max,
    decreases dups.len(),
{
    reveal(dedup_step);
    lemma_taken_slots_card(states[0].id_filter, id, max);
    if dups.len() == 0 {
    } else {
        let tail_states = states.drop_first();
        let tail_shreds = shreds.drop_first();
        let tail_dups = dups.drop_first();
        assert forall|i: int| 0 <= i < tail_dups.len() implies dedup_step(
            #[trigger] tail_states[i],
            tail_states[i + 1],
            tail_shreds[i],
            max,
            tail_dups[i],
        ) by {
            assert(dedup_step(states[i + 1], states[i + 2], shreds[i + 1], max, dups[i + 1]));
        }
        assert forall|i: int| 0 <= i < tail_dups.len() implies #[trigger] tail_shreds[i].spec_id()
            == id by {
            assert(shreds[i + 1].spec_id() == id);
        }
        lemma_duplicate_admission_bound(tail_states, tail_shreds, tail_dups, id, max);
        assert(dedup_step(states[0], states[1], shreds[0], max, dups[0]));
        assert(shreds[0].spec_id() == id);
        lemma_taken_slots_monotone(states[0].id_filter, states[1].id_filter, id, max);
        lemma_taken_slots_card(states[1].id_filter, id, max);
        if dups[0] {
            vstd::set_lib::lemma_len_subset(
                taken_slots(states[0].id_filter, id, max),
                taken_slots(states[1].id_filter, id, max),
            );
        }
    }
}

/// Exact-replay rejection: a second `dedup` of the very same shred, with no
/// filter rebuild in between, reports it as a duplicate.
pub proof fn lemma_exact_replay_rejected(
    pre: ShredDeduper,
    mid: ShredDeduper,
    post: ShredDeduper,
    shred: Shred,
    max: u64,
    first: bool,
    second: bool,
)
    requires
        dedup_step(pre, mid, shred, max, first),
        dedup_step(mid, post, shred, max, second),
    ensures
        second,
{
    reveal(dedup_step);
}

} // verus!
