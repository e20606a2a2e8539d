use vstd::prelude::*;
use vstd::multiset::Multiset;
use crate::slot_stats::RootDistance;

verus! {

/// Branching factor of the broadcast tree overlay.
pub const DATA_PLANE_FANOUT: usize = 200;

/// At most this many epoch entries are cached.
pub const CLUSTER_NODES_CACHE_NUM_EPOCH_CAP: usize = 8;

/// Cached peer-selection state older than this is recomputed on access.
pub const CLUSTER_NODES_CACHE_TTL_MS: u64 = 5000;

/// A peer's datagram service address.
#[derive(Clone, Copy, PartialEq, Eq, Structural, Debug)]
pub struct SockAddr {
    pub ip: u32,
    pub port: u16,
}

/// The node's address-space policy: a permissive node also forwards to
/// loopback and private ranges.
#[derive(Clone, Copy, PartialEq, Eq, Structural, Debug)]
pub struct SocketAddrSpace {
    pub allow_private: bool,
}

pub open spec fn spec_is_loopback(ip: u32) -> bool {
    ip >> 24 == 127
}

pub open spec fn spec_is_private(ip: u32) -> bool {
    ip >> 24 == 10 || ip >> 20 == 0xAC1 || ip >> 16 == 0xC0A8
}

/// A peer address is worth a datagram iff it is specified, has a port, and
/// passes the address-space policy.
pub open spec fn spec_is_valid_address(a: SockAddr, space: SocketAddrSpace) -> bool {
    a.ip != 0 && a.port != 0 && (space.allow_private || (!spec_is_loopback(a.ip)
        && !spec_is_private(a.ip)))
}

pub fn is_valid_address(a: SockAddr, space: SocketAddrSpace) -> (r: bool)
    ensures
        r == spec_is_valid_address(a, space),
{
    a.ip != 0 && a.port != 0 && (space.allow_private || (!(a.ip >> 24 == 127) && !(a.ip >> 24
        == 10 || a.ip >> 20 == 0xAC1 || a.ip >> 16 == 0xC0A8)))
}

/// A cluster peer as the gossip layer reports it.
#[derive(Clone, Copy, PartialEq, Eq, Structural, Debug)]
pub struct Peer {
    pub id: u64,
    pub stake: u64,
    pub shred_version: u16,
    pub addr: SockAddr,
}

/// The peers of `s` whose shred version matches, as a multiset.
pub open spec fn matching_multiset(s: Seq<Peer>, shred_version: u16) -> Multiset<Peer>
    decreases s.len(),
{
    if s.len() == 0 {
        Multiset::empty()
    } else {
        let rest = matching_multiset(s.drop_last(), shred_version);
        if s.last().shred_version == shred_version {
            rest.insert(s.last())
        } else {
            rest
        }
    }
}

/// The nodes of `s` that are not the slot leader, in order.
pub open spec fn spec_without_leader(s: Seq<Peer>, leader: u64) -> Seq<Peer>
    decreases s.len(),
{
    if s.len() == 0 {
        Seq::empty()
    } else {
        let rest = spec_without_leader(s.drop_last(), leader);
        if s.last().id != leader {
            rest.push(s.last())
        } else {
            rest
        }
    }
}

/// The valid addresses of `t[lo..hi]`, in index order.
pub open spec fn spec_addrs_in(t: Seq<Peer>, lo: int, hi: int, space: SocketAddrSpace) -> Seq<
    SockAddr,
>
    decreases hi - lo,
{
    if hi <= lo {
        Seq::empty()
    } else {
        let init = spec_addrs_in(t, lo, hi - 1, space);
        if hi - 1 < t.len() && spec_is_valid_address(t[hi - 1].addr, space) {
            init.push(t[hi - 1].addr)
        } else {
            init
        }
    }
}

proof fn lemma_addrs_in_clip(t: Seq<Peer>, lo: int, hi: int, space: SocketAddrSpace)
    requires
        lo <= t.len() <= hi,
    ensures
        spec_addrs_in(t, lo, hi, space) == spec_addrs_in(t, lo, t.len() as int, space),
    decreases hi - t.len(),
{
    if hi > t.len() {
        lemma_addrs_in_clip(t, lo, hi - 1, space);
    }
}

proof fn lemma_addrs_in_empty_tail(t: Seq<Peer>, lo: int, hi: int, space: SocketAddrSpace)
    requires
        lo >= t.len(),
    ensures
        spec_addrs_in(t, lo, hi, space) == Seq::<SockAddr>::empty(),
    decreases hi - lo,
{
    if hi > lo {
        lemma_addrs_in_empty_tail(t, lo, hi - 1, space);
    }
}

proof fn lemma_addrs_in_len(t: Seq<Peer>, lo: int, hi: int, space: SocketAddrSpace)
    ensures
        spec_addrs_in(t, lo, hi, space).len() <= (if hi >= lo {
            hi - lo
        } else {
            0
        }),
    decreases hi - lo,
{
    if hi > lo {
        lemma_addrs_in_len(t, lo, hi - 1, space);
    }
}

proof fn lemma_addrs_in_valid(t: Seq<Peer>, lo: int, hi: int, space: SocketAddrSpace)
    ensures
        forall|k: int| 0 <= k < spec_addrs_in(t, lo, hi, space).len()
            ==> spec_is_valid_address(#[trigger] spec_addrs_in(t, lo, hi, space)[k], space),
    decreases hi - lo,
{
    if hi > lo {
        lemma_addrs_in_valid(t, lo, hi - 1, space);
        let cur = spec_addrs_in(t, lo, hi, space);
        let init = spec_addrs_in(t, lo, hi - 1, space);
        assert forall|k: int| 0 <= k < cur.len() implies spec_is_valid_address(
            #[trigger] cur[k],
            space,
        ) by {
            if k < init.len() {
                assert(cur[k] == init[k]);
            }
        }
    }
}

/// The ChaCha word stream drawn from a seed: a function of the seed and
/// the count alone.
pub uninterp spec fn chacha_words_of(seed: Seq<u8>, n: int) -> Seq<u64>;

/// Relies on `rand_chacha::ChaCha20Rng::from_seed` and
/// `rand::RngCore::next_u64`: the generator is pure in its seed, so the
/// words it yields depend on the seed and count alone, on every machine.
#[verifier::external_body]
fn chacha_words(seed: [u8; 32], n: usize) -> (r: Vec<u64>)
    ensures
        r@.len() == n,
        r@ == chacha_words_of(seed@, n as int),
{
    let mut rng = <rand_chacha::ChaChaRng as rand::SeedableRng>::from_seed(seed);
    let mut words = Vec::with_capacity(n);
    for _ in 0..n {
        words.push(rand::RngCore::next_u64(&mut rng));
    }
    words
}

/// The shuffle seed for one epoch and slot leader: their bytes, little
/// end first, padded with zeroes.
fn shuffle_seed(epoch: u64, slot_leader: u64) -> [u8; 32] {
    [
        (epoch & 0xFF) as u8,
        ((epoch >> 8) & 0xFF) as u8,
        ((epoch >> 16) & 0xFF) as u8,
        ((epoch >> 24) & 0xFF) as u8,
        ((epoch >> 32) & 0xFF) as u8,
        ((epoch >> 40) & 0xFF) as u8,
        ((epoch >> 48) & 0xFF) as u8,
        ((epoch >> 56) & 0xFF) as u8,
        (slot_leader & 0xFF) as u8,
        ((slot_leader >> 8) & 0xFF) as u8,
        ((slot_leader >> 16) & 0xFF) as u8,
        ((slot_leader >> 24) & 0xFF) as u8,
        ((slot_leader >> 32) & 0xFF) as u8,
        ((slot_leader >> 40) & 0xFF) as u8,
        ((slot_leader >> 48) & 0xFF) as u8,
        ((slot_leader >> 56) & 0xFF) as u8,
        0,
        0,
        0,
        0,
        0,
        0,
        0,
        0,
        0,
        0,
        0,
        0,
        0,
        0,
        0,
        0,
    ]
}

/// Arrangement of the cluster's peers for one epoch: the peers with the
/// wanted shred version as a stake-weighted shuffle seeded by the epoch
/// and the slot leader, deterministic in those and the membership.
pub struct ClusterNodesSnapshot {
    pub nodes: Vec<Peer>,
}

impl ClusterNodesSnapshot {
    /// Filter the known peers to those with the wanted shred version and
    /// arrange them as a stake-weighted shuffle seeded by (epoch, slot
    /// leader): each position is drawn from the remaining peers with
    /// weight stake plus one, the draws taken from the ChaCha stream over
    /// the seed.
    pub fn new_snapshot(
        peers: &Vec<Peer>,
        shred_version: u16,
        epoch: u64,
        slot_leader: u64,
    ) -> (r: ClusterNodesSnapshot)
        ensures
            r.nodes@.to_multiset() == matching_multiset(peers@, shred_version),
            forall|k: int| 0 <= k < r.nodes@.len() ==> (#[trigger] r.nodes@[k]).shred_version
                == shred_version,
    {
        let mut pool: Vec<Peer> = Vec::new();
        let mut i: usize = 0;
        proof {
            broadcast use vstd::seq_lib::group_to_multiset_ensures;

            assert(peers@.take(0) =~= Seq::<Peer>::empty());
            assert forall|x: Peer| Seq::<Peer>::empty().to_multiset().count(x) == 0 by {
                assert(!Seq::<Peer>::empty().contains(x));
            }
            assert(pool@.to_multiset() =~= Multiset::<Peer>::empty());
        }
        while i < peers.len()
            invariant
                i <= peers@.len(),
                pool@.to_multiset() == matching_multiset(peers@.take(i as int), shred_version),
                forall|k: int| 0 <= k < pool@.len() ==> (#[trigger] pool@[k]).shred_version
                    == shred_version,
            decreases peers@.len() - i,
        {
            let p = peers[i];
            proof {
                broadcast use vstd::seq_lib::group_to_multiset_ensures;

                assert(peers@.take(i + 1).drop_last() =~= peers@.take(i as int));
                assert(peers@.take(i + 1).last() == peers@[i as int]);
            }
            if p.shred_version == shred_version {
                pool.push(p);
            }
            i = i + 1;
        }
        proof {
            assert(peers@.take(peers@.len() as int) =~= peers@);
        }
        let words = chacha_words(shuffle_seed(epoch, slot_leader), pool.len());
        let ghost pool_ms = pool@.to_multiset();
        let mut nodes: Vec<Peer> = Vec::new();
        proof {
            assert(nodes@.to_multiset().add(pool@.to_multiset()) =~= pool_ms) by {
                broadcast use vstd::seq_lib::group_to_multiset_ensures;

                assert forall|x: Peer| Seq::<Peer>::empty().to_multiset().count(x) == 0 by {
                    assert(!Seq::<Peer>::empty().contains(x));
                }
            }
        }
        while pool.len() > 0
            invariant
                nodes@.len() + pool@.len() == words@.len(),
                nodes@.to_multiset().add(pool@.to_multiset()) == pool_ms,
                forall|k: int| 0 <= k < pool@.len() ==> (#[trigger] pool@[k]).shred_version
                    == shred_version,
                forall|k: int| 0 <= k < nodes@.len() ==> (#[trigger] nodes@[k]).shred_version
                    == shred_version,
            decreases pool@.len(),
        {
            let w = words[nodes.len()];
            let mut total: u128 = 0;
            let mut t: usize = 0;
            while t < pool.len()
                invariant
                    t <= pool@.len(),
                    total >= t,
                decreases pool@.len() - t,
            {
                total = total.saturating_add((pool[t].stake as u128).saturating_add(1));
                t = t + 1;
            }
            let draw: u128 = (w as u128) % total;
            let mut idx: usize = 0;
            let mut acc: u128 = 0;
            while idx + 1 < pool.len() && acc.saturating_add(
                (pool[idx].stake as u128).saturating_add(1),
            ) <= draw
                invariant
                    idx < pool@.len(),
                    pool@.len() <= usize::MAX,
                decreases pool@.len() - idx,
            {
                acc = acc.saturating_add((pool[idx].stake as u128).saturating_add(1));
                idx = idx + 1;
            }
            let ghost pool0 = pool@;
            let ghost nodes0 = nodes@;
            let picked = pool.remove(idx);
            nodes.push(picked);
            proof {
                broadcast use vstd::seq_lib::group_to_multiset_ensures;

                assert(pool0.contains(picked)) by {
                    assert(pool0[idx as int] == picked);
                }
                assert(nodes@.to_multiset() =~= nodes0.to_multiset().insert(picked));
                assert(pool@.to_multiset() =~= pool0.to_multiset().remove(picked));
                assert(nodes@.to_multiset().add(pool@.to_multiset()) =~= pool_ms);
                pool0.remove_ensures(idx as int);
                assert forall|k: int| 0 <= k < pool@.len() implies (#[trigger] pool@[k]).shred_version
                    == shred_version by {
                    if k < idx {
                        assert(pool@[k] == pool0[k]);
                    } else {
                        assert(pool@[k] == pool0[k + 1]);
                    }
                }
            }
        }
        ClusterNodesSnapshot { nodes }
    }

    /// An identical snapshot, element for element.
    pub fn duplicate(&self) -> (r: ClusterNodesSnapshot)
        ensures
            r.nodes@ == self.nodes@,
    {
        let mut nodes: Vec<Peer> = Vec::new();
        let mut i: usize = 0;
        while i < self.nodes.len()
            invariant
                i <= self.nodes@.len(),
                nodes@ == self.nodes@.take(i as int),
            decreases self.nodes@.len() - i,
        {
            nodes.push(self.nodes[i]);
            proof {
                assert(self.nodes@.take(i + 1).drop_last() =~= self.nodes@.take(i as int));
                assert(self.nodes@.take(i + 1).last() == self.nodes@[i as int]);
            }
            i = i + 1;
        }
        proof {
            assert(self.nodes@.take(self.nodes@.len() as int) =~= self.nodes@);
        }
        ClusterNodesSnapshot { nodes }
    }

    /// Where the local node stands in the broadcast tree rooted at the slot
    /// leader, and the addresses of its children there. The tree is the
    /// `fanout`-ary heap layout over the arrangement with the leader
    /// removed: the node at index 0 is the root, indices 1 to `fanout` form
    /// the first layer, and everything beyond is a leaf and receives no
    /// addresses. Children addresses are filtered by the address-space
    /// policy.
    pub fn get_retransmit_addrs(
        &self,
        slot_leader: u64,
        local_id: u64,
        fanout: usize,
        space: SocketAddrSpace,
    ) -> (r: (RootDistance, Vec<SockAddr>))
        requires
            1 <= fanout <= 0xFFFF,
        ensures
            ({
                let t = spec_without_leader(self.nodes@, slot_leader);
                let d = r.0;
                let addrs = r.1;
                &&& ((forall|k: int| 0 <= k < t.len() ==> (#[trigger] t[k]).id != local_id)
                    ==> d == RootDistance::SecondLayer)
                &&& (forall|li: int|
                    (0 <= li < t.len() && (#[trigger] t[li]).id == local_id && (forall|j: int|
                        0 <= j < li ==> (#[trigger] t[j]).id != local_id)) ==> {
                        &&& d == (if li == 0 {
                            RootDistance::Root
                        } else if li <= fanout {
                            RootDistance::FirstLayer
                        } else {
                            RootDistance::SecondLayer
                        })
                        &&& (li <= fanout ==> addrs@ == spec_addrs_in(
                            t,
                            li * fanout + 1,
                            li * fanout + fanout + 1,
                            space,
                        ))
                    })
                &&& (d == RootDistance::SecondLayer ==> addrs@.len() == 0)
                &&& addrs@.len() <= fanout
                &&& (forall|k: int| 0 <= k < addrs@.len() ==> spec_is_valid_address(
                    #[trigger] addrs@[k],
                    space,
                ))
            }),
    {
        let ghost t_spec = spec_without_leader(self.nodes@, slot_leader);
        let mut t: Vec<Peer> = Vec::new();
        let mut i: usize = 0;
        while i < self.nodes.len()
            invariant
                i <= self.nodes@.len(),
                t@ == spec_without_leader(self.nodes@.take(i as int), slot_leader),
            decreases self.nodes@.len() - i,
        {
            let p = self.nodes[i];
            proof {
                assert(self.nodes@.take(i + 1).drop_last() =~= self.nodes@.take(i as int));
                assert(self.nodes@.take(i + 1).last() == self.nodes@[i as int]);
            }
            if p.id != slot_leader {
                t.push(p);
            }
            i = i + 1;
        }
        proof {
            assert(self.nodes@.take(self.nodes@.len() as int) =~= self.nodes@);
        }
        let mut li: usize = 0;
        let mut found: bool = false;
        while li < t.len() && !found
            invariant
                li <= t@.len(),
                !found ==> forall|j: int| 0 <= j < li ==> (#[trigger] t@[j]).id != local_id,
                found ==> li < t@.len() && t@[li as int].id == local_id && (forall|j: int|
                    0 <= j < li ==> (#[trigger] t@[j]).id != local_id),
            decreases t@.len() - li + (if found {
                0int
            } else {
                1int
            }),
        {
            if t[li].id == local_id {
                found = true;
            } else {
                li = li + 1;
            }
        }
        if !found {
            return (RootDistance::SecondLayer, Vec::new());
        }
        proof {
            assert forall|li2: int|
                (0 <= li2 < t@.len() && (#[trigger] t@[li2]).id == local_id && (forall|j2: int|
                    0 <= j2 < li2 ==> (#[trigger] t@[j2]).id != local_id)) implies li2
                == li as int by {
                if li2 < li {
                    assert(t@[li2].id != local_id);
                }
                if li2 > li {
                    assert(t@[li as int].id != local_id);
                }
            }
        }
        if li > fanout {
            return (RootDistance::SecondLayer, Vec::new());
        }
        let d = if li == 0 {
            RootDistance::Root
        } else {
            RootDistance::FirstLayer
        };
        proof {
            assert((li as int) * (fanout as int) <= 0xFFFF * 0xFFFF) by (nonlinear_arith)
                requires
                    0 <= li as int <= 0xFFFF,
                    0 <= fanout as int <= 0xFFFF,
            ;
        }
        let lo: usize = li * fanout + 1;
        let hi: usize = lo + fanout;
        let mut addrs: Vec<SockAddr> = Vec::new();
        let mut j: usize = lo;
        let end: usize = if hi <= t.len() {
            hi
        } else {
            t.len()
        };
        while j < end
            invariant
                j <= end || j == lo,
                lo <= j,
                end <= t@.len(),
                addrs@ == spec_addrs_in(t@, lo as int, j as int, space),
            decreases end - j,
        {
            let p = t[j];
            if is_valid_address(p.addr, space) {
                addrs.push(p.addr);
            }
            j = j + 1;
        }
        proof {
            if hi <= t@.len() {
                assert(j == hi);
            } else if (lo as int) <= t@.len() {
                assert(j == t@.len());
                lemma_addrs_in_clip(t@, lo as int, hi as int, space);
            } else {
                assert(j == lo);
                lemma_addrs_in_empty_tail(t@, lo as int, hi as int, space);
                assert(spec_addrs_in(t@, lo as int, lo as int, space) =~= Seq::<
                    SockAddr,
                >::empty());
            }
            lemma_addrs_in_valid(t@, lo as int, hi as int, space);
            lemma_addrs_in_len(t@, lo as int, hi as int, space);
        }
        (d, addrs)
    }
}

proof fn lemma_insert_to_multiset(s: Seq<Peer>, pos: int, x: Peer)
    requires
        0 <= pos <= s.len(),
    ensures
        s.insert(pos, x).to_multiset() == s.to_multiset().insert(x),
{
    broadcast use vstd::seq_lib::group_to_multiset_ensures;

    let a = s.subrange(0, pos);
    let b = s.subrange(pos, s.len() as int);
    assert(s =~= a + b);
    assert(s.insert(pos, x) =~= a.push(x) + b);
    vstd::seq_lib::lemma_multiset_commutative(a.push(x), b);
    vstd::seq_lib::lemma_multiset_commutative(a, b);
    assert(a.push(x).to_multiset() =~= a.to_multiset().insert(x));
    assert(a.to_multiset().insert(x).add(b.to_multiset()) =~= a.to_multiset().add(
        b.to_multiset(),
    ).insert(x));
}

/// Epoch schedule without warmup: every epoch is a fixed run of slots.
#[derive(Clone, Copy, PartialEq, Eq, Structural, Debug)]
pub struct EpochSchedule {
    pub slots_per_epoch: u64,
}

impl EpochSchedule {
    pub open spec fn wf(self) -> bool {
        self.slots_per_epoch >= 1
    }

    pub open spec fn spec_epoch_of(self, slot: u64) -> u64 {
        slot / self.slots_per_epoch
    }

    pub fn epoch_of(&self, slot: u64) -> (r: u64)
        requires
            self.wf(),
        ensures
            r == self.spec_epoch_of(slot),
    {
        slot / self.slots_per_epoch
    }
}

/// One cached epoch: the arrangement and when it was computed.
pub struct CacheEntry {
    pub epoch: u64,
    pub created_ms: u64,
    pub snapshot: ClusterNodesSnapshot,
}

pub open spec fn epochs_distinct(s: Seq<CacheEntry>) -> bool {
    forall|i: int, j: int| 0 <= i < j < s.len() ==> (#[trigger] s[i]).epoch != (#[trigger] s[j]).epoch
}

/// A freshly computed arrangement was stored: from `base` (the old
/// entries less any entry for the epoch), the least recent entry makes
/// room when at capacity, and the new entry sits at the most recent end,
/// carrying the epoch, the clock, and the returned arrangement.
pub open spec fn spec_stored_fresh(
    base: Seq<CacheEntry>,
    capacity: usize,
    stored: Seq<CacheEntry>,
    epoch: u64,
    now_ms: u64,
    r: ClusterNodesSnapshot,
) -> bool {
    let base2 = if base.len() >= capacity {
        base.drop_first()
    } else {
        base
    };
    &&& stored.len() == base2.len() + 1
    &&& stored.drop_last() == base2
    &&& stored.last().epoch == epoch
    &&& stored.last().created_ms == now_ms
    &&& stored.last().snapshot.nodes@ == r.nodes@
}

/// Bounded, TTL-based memoization of the peer-selection computation, keyed
/// by epoch. Entries are kept in recency order, least recent first; a
/// fresh entry answers a lookup, anything else is recomputed from the
/// current cluster membership.
pub struct ClusterNodesCache {
    pub entries: Vec<CacheEntry>,
    pub capacity: usize,
    pub ttl_ms: u64,
}

impl ClusterNodesCache {
    pub open spec fn wf(self) -> bool {
        &&& self.capacity >= 1
        &&& self.entries@.len() <= self.capacity
        &&& epochs_distinct(self.entries@)
    }

    pub fn new(capacity: usize, ttl_ms: u64) -> (r: ClusterNodesCache)
        requires
            capacity >= 1,
        ensures
            r.wf(),
            r.entries@.len() == 0,
            r.capacity == capacity,
            r.ttl_ms == ttl_ms,
    {
        ClusterNodesCache { entries: Vec::new(), capacity, ttl_ms }
    }

    /// The arrangement to use for `slot`: a cached one for the slot's
    /// epoch if it is younger than the TTL, else one computed afresh from
    /// `peers` and remembered, the least recently used epoch making room.
    pub fn get(
        &mut self,
        slot: u64,
        slot_leader: u64,
        now_ms: u64,
        peers: &Vec<Peer>,
        shred_version: u16,
        schedule: &EpochSchedule,
    ) -> (r: ClusterNodesSnapshot)
        requires
            old(self).wf(),
            schedule.wf(),
        ensures
            final(self).wf(),
            final(self).capacity == old(self).capacity,
            final(self).ttl_ms == old(self).ttl_ms,
            ({
                let epoch = schedule.spec_epoch_of(slot);
                &&& (forall|i: int|
                    (0 <= i < old(self).entries@.len() && (#[trigger] old(
                        self,
                    ).entries@[i]).epoch == epoch && now_ms >= old(self).entries@[i].created_ms
                        && now_ms - old(self).entries@[i].created_ms < old(self).ttl_ms)
                        ==> r.nodes@ == old(self).entries@[i].snapshot.nodes@)
                &&& ((forall|i: int|
                    0 <= i < old(self).entries@.len() ==> !((#[trigger] old(
                        self,
                    ).entries@[i]).epoch == epoch && now_ms >= old(self).entries@[i].created_ms
                        && now_ms - old(self).entries@[i].created_ms < old(self).ttl_ms)) ==> (
                r.nodes@.to_multiset() == matching_multiset(peers@, shred_version) && (forall|
                    k: int,
                |
                    0 <= k < r.nodes@.len() ==> (#[trigger] r.nodes@[k]).shred_version
                        == shred_version)))
            }),
            ({
                let epoch = schedule.spec_epoch_of(slot);
                &&& (forall|i: int|
                    (0 <= i < old(self).entries@.len() && (#[trigger] old(
                        self,
                    ).entries@[i]).epoch == epoch && now_ms >= old(self).entries@[i].created_ms
                        && now_ms - old(self).entries@[i].created_ms < old(self).ttl_ms)
                        ==> final(self).entries@ == old(self).entries@.remove(i).push(
                        old(self).entries@[i],
                    ))
                &&& (forall|i: int|
                    (0 <= i < old(self).entries@.len() && (#[trigger] old(
                        self,
                    ).entries@[i]).epoch == epoch && !(now_ms >= old(
                        self,
                    ).entries@[i].created_ms && now_ms - old(self).entries@[i].created_ms < old(
                        self,
                    ).ttl_ms)) ==> spec_stored_fresh(
                        old(self).entries@.remove(i),
                        old(self).capacity,
                        final(self).entries@,
                        epoch,
                        now_ms,
                        r,
                    ))
                &&& ((forall|i: int|
                    0 <= i < old(self).entries@.len() ==> (#[trigger] old(
                        self,
                    ).entries@[i]).epoch != epoch) ==> spec_stored_fresh(
                        old(self).entries@,
                        old(self).capacity,
                        final(self).entries@,
                        epoch,
                        now_ms,
                        r,
                    ))
            }),
    {
        let ghost s0 = self.entries@;
        let epoch = schedule.epoch_of(slot);
        let mut idx: usize = 0;
        let mut found: bool = false;
        while idx < self.entries.len() && !found
            invariant
                self.entries@ == s0,
                idx <= s0.len(),
                !found ==> forall|j: int| 0 <= j < idx ==> (#[trigger] s0[j]).epoch != epoch,
                found ==> idx < s0.len() && s0[idx as int].epoch == epoch,
            decreases s0.len() - idx + (if found {
                0int
            } else {
                1int
            }),
        {
            if self.entries[idx].epoch == epoch {
                found = true;
            } else {
                idx = idx + 1;
            }
        }
        proof {
            if found {
                assert forall|i: int|
                    0 <= i < s0.len() && (#[trigger] s0[i]).epoch == epoch implies i
                    == idx as int by {
                    if i < idx {
                        assert(s0[i].epoch != s0[idx as int].epoch);
                    }
                    if i > idx {
                        assert(s0[idx as int].epoch != s0[i].epoch);
                    }
                }
            }
        }
        if found {
            let created = self.entries[idx].created_ms;
            if now_ms >= created && now_ms - created < self.ttl_ms {
                let entry = self.entries.remove(idx);
                let snap = entry.snapshot.duplicate();
                self.entries.push(entry);
                proof {
                    s0.remove_ensures(idx as int);
                    let t = s0.remove(idx as int);
                    assert forall|a: int, b: int|
                        0 <= a < b < self.entries@.len() implies (#[trigger] self.entries@[a]).epoch
                        != (#[trigger] self.entries@[b]).epoch by {
                        if b < t.len() {
                            assert(self.entries@[a] == t[a]);
                            assert(self.entries@[b] == t[b]);
                        } else {
                            assert(self.entries@[a] == t[a]);
                            assert(self.entries@[b] == s0[idx as int]);
                        }
                    }
                    assert(self.entries@ =~= s0.remove(idx as int).push(s0[idx as int]));
                }
                return snap;
            } else {
                let _ = self.entries.remove(idx);
                proof {
                    s0.remove_ensures(idx as int);
                }
            }
        }
        proof {
            assert forall|j: int|
                0 <= j < self.entries@.len() implies (#[trigger] self.entries@[j]).epoch
                != epoch by {
                if found {
                    let t = s0.remove(idx as int);
                    if j < idx {
                        assert(self.entries@[j] == s0[j]);
                    } else {
                        assert(self.entries@[j] == s0[j + 1]);
                    }
                }
            }
        }
        let ghost base = self.entries@;
        let fresh_snapshot = ClusterNodesSnapshot::new_snapshot(peers, shred_version, epoch, slot_leader);
        let stored = fresh_snapshot.duplicate();
        if self.entries.len() >= self.capacity {
            let ghost s1 = self.entries@;
            let _ = self.entries.remove(0);
            proof {
                s1.remove_ensures(0);
                assert(self.entries@ =~= base.drop_first());
            }
        }
        let ghost s2 = self.entries@;
        self.entries.push(CacheEntry { epoch, created_ms: now_ms, snapshot: stored });
        proof {
            assert forall|a: int, b: int|
                0 <= a < b < self.entries@.len() implies (#[trigger] self.entries@[a]).epoch
                != (#[trigger] self.entries@[b]).epoch by {
                if b < s2.len() {
                    assert(self.entries@[a] == s2[a]);
                    assert(self.entries@[b] == s2[b]);
                } else {
                    assert(self.entries@[a] == s2[a]);
                }
            }
            assert(self.entries@.drop_last() =~= s2);
            if found {
                assert(base =~= s0.remove(idx as int));
            }
        }
        fresh_snapshot
    }
}


} // verus!
