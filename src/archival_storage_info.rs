//! Which peers may hold which pieces: every peer advertises a cuckoo filter over the
//! piece indices it stores, and the node keeps the latest filter of a bounded number
//! of peers.
use cuckoofilter::{CuckooFilter, ExportedCuckooFilter};
use rand::rngs::StdRng;
use rand::{Rng, SeedableRng};
use std::collections::hash_map::DefaultHasher;
use std::hash::Hasher;
use vstd::prelude::*;
use vstd::std_specs::hash::DefaultHasherAdditionalSpecFns;

verus! {

/// At most this many peers (and their filters) are kept.
pub const CONNECTED_PEERS_NUMBER_LIMIT: usize = 50;

#[verifier::external_type_specification]
#[verifier::external_body]
#[verifier::reject_recursive_types(H)]
pub struct ExCuckooFilter<H>(CuckooFilter<H>);

/// The piece indices for which a filter answers "maybe present".
pub uninterp spec fn filter_members(f: CuckooFilter<DefaultHasher>) -> Set<u64>;

/// The number of buckets of a filter.
pub uninterp spec fn filter_bucket_count(f: CuckooFilter<DefaultHasher>) -> nat;

/// The piece indices that a filter rebuilt from the exported fingerprint bytes
/// `values` answers "maybe present" for.
pub uninterp spec fn snapshot_members(values: Seq<u8>) -> Set<u64>;

/// Relies on `From<ExportedCuckooFilter> for CuckooFilter` (cuckoofilter 0.5): the
/// bytes are cut into buckets of four one-byte fingerprints (the last bucket may be
/// shorter), and membership is decided by those buckets alone.
#[verifier::external_body]
fn filter_from_export(values: Vec<u8>, length: usize) -> (r: CuckooFilter<DefaultHasher>)
    ensures
        filter_bucket_count(r) == (values@.len() + 3) / 4,
        values@.len() > 0 ==> filter_members(r) == snapshot_members(values@),
{
    CuckooFilter::from(ExportedCuckooFilter { values, length })
}

/// Relies on `CuckooFilter::contains` (cuckoofilter 0.5), which takes a bucket
/// index modulo the number of buckets and so needs at least one. A piece index is
/// hashed as its `u64`.
#[verifier::external_body]
fn filter_contains(f: &CuckooFilter<DefaultHasher>, piece_index: u64) -> (r: bool)
    requires
        filter_bucket_count(*f) > 0,
    ensures
        r == filter_members(*f).contains(piece_index),
{
    f.contains(&piece_index)
}

/// Relies on `StdRng::seed_from_u64` and `Rng::gen_range` (rand 0.8): the draw
/// lies in `0..bound`; an empty range panics, so `bound` is positive.
#[verifier::external_body]
fn pick_index(seed: u64, bound: usize) -> (r: usize)
    requires
        bound > 0,
    ensures
        r < bound,
{
    StdRng::seed_from_u64(seed).gen_range(0..bound)
}

/// The identity of a peer, as the bytes of its multihash.
#[derive(Debug, Clone, PartialEq, Eq, Hash)]
pub struct PeerId {
    pub bytes: Vec<u8>,
}

impl View for PeerId {
    type V = Seq<u8>;

    open spec fn view(&self) -> Seq<u8> {
        self.bytes@
    }
}

impl PeerId {
    pub fn new(bytes: Vec<u8>) -> (r: PeerId)
        ensures
            r@ == bytes@,
    {
        PeerId { bytes }
    }

    /// A copy with the same bytes.
    pub fn duplicate(&self) -> (r: PeerId)
        ensures
            r@ == self@,
    {
        let bytes = self.bytes.clone();
        assert(bytes@ =~= self.bytes@);
        PeerId { bytes }
    }

    /// Whether two peers are the same.
    pub fn same_as(&self, other: &PeerId) -> (r: bool)
        ensures
            r == (self@ == other@),
    {
        if self.bytes.len() != other.bytes.len() {
            return false;
        }
        let mut i: usize = 0;
        while i < self.bytes.len()
            invariant
                i <= self@.len(),
                self@.len() == other@.len(),
                forall|j: int| 0 <= j < i ==> self@[j] == other@[j],
            decreases self@.len() - i,
        {
            if self.bytes[i] != other.bytes[i] {
                return false;
            }
            i = i + 1;
        }
        assert(self@ =~= other@);
        true
    }
}

/// The seed of the eviction draw that follows an update of `peer`: its bytes
/// hashed with the standard hasher.
pub open spec fn peer_seed(peer: Seq<u8>) -> u64 {
    DefaultHasher::spec_finish(seq![peer])
}

/// Hashes a peer's bytes into the seed of the eviction draw.
fn seed_of(peer_id: &PeerId) -> (r: u64)
    ensures
        r == peer_seed(peer_id@),
{
    let mut hasher = DefaultHasher::new();
    hasher.write(peer_id.bytes.as_slice());
    assert(hasher@ =~= seq![peer_id@]);
    hasher.finish()
}

/// A peer's filter as advertised on the wire: the exported fingerprint bytes and
/// the number of items it holds.
#[derive(Debug, Clone)]
pub struct CuckooFilterDTO {
    pub values: Vec<u8>,
    pub length: u64,
}

/// What a filter rebuilt from the fingerprint bytes `values` reports; a filter
/// without buckets reports nothing.
pub open spec fn advertised_members(values: Seq<u8>) -> Set<u64> {
    if values.len() > 0 {
        snapshot_members(values)
    } else {
        Set::empty()
    }
}

struct PeerFilter {
    peer_id: PeerId,
    filter: CuckooFilter<DefaultHasher>,
    /// Whether the filter has buckets to look in.
    populated: bool,
}

/// A tracked peer: its identity and the piece indices its filter reports.
pub type PeerEntry = (Seq<u8>, Set<u64>);

impl PeerFilter {
    #[verifier::type_invariant]
    spec fn populated_has_buckets(&self) -> bool {
        self.populated ==> filter_bucket_count(self.filter) > 0
    }

    spec fn entry(&self) -> PeerEntry {
        (
            self.peer_id@,
            if self.populated {
                filter_members(self.filter)
            } else {
                Set::empty()
            },
        )
    }
}

pub open spec fn contains_peer(v: Seq<PeerEntry>, peer: Seq<u8>) -> bool {
    exists|i: int| 0 <= i < v.len() && (#[trigger] v[i]).0 == peer
}

/// Where `peer` stands in `v` (meaningful where it stands there).
pub open spec fn peer_position(v: Seq<PeerEntry>, peer: Seq<u8>) -> int {
    choose|i: int| 0 <= i < v.len() && (#[trigger] v[i]).0 == peer
}

/// No peer is tracked twice.
pub open spec fn unique_peers(v: Seq<PeerEntry>) -> bool {
    forall|i: int, j: int| 0 <= i < v.len() && 0 <= j < v.len() && i != j ==> (#[trigger] v[i]).0 != (#[trigger] v[j]).0
}

/// The peers after `peer`'s filter is stored: replaced in place where the peer is
/// tracked, else appended.
pub open spec fn upserted(v: Seq<PeerEntry>, peer: Seq<u8>, members: Set<u64>) -> Seq<PeerEntry> {
    if contains_peer(v, peer) {
        v.update(peer_position(v, peer), (peer, members))
    } else {
        v.push((peer, members))
    }
}

/// The peers after an update whose eviction draw, if one is needed, picks `pick`:
/// over the limit, the peer at that position leaves.
pub open spec fn after_update(v: Seq<PeerEntry>, peer: Seq<u8>, members: Set<u64>, pick: int) -> Seq<PeerEntry> {
    let u = upserted(v, peer, members);
    if u.len() > CONNECTED_PEERS_NUMBER_LIMIT {
        u.remove(pick)
    } else {
        u
    }
}

/// The peers after `peer` is removed.
pub open spec fn without_peer(v: Seq<PeerEntry>, peer: Seq<u8>) -> Seq<PeerEntry> {
    if contains_peer(v, peer) {
        v.remove(peer_position(v, peer))
    } else {
        v
    }
}

/// The peers, in order, whose filter reports `piece_index`.
pub open spec fn peers_reporting(v: Seq<PeerEntry>, piece_index: u64) -> Seq<Seq<u8>>
    decreases v.len(),
{
    if v.len() == 0 {
        Seq::empty()
    } else {
        let rest = peers_reporting(v.drop_last(), piece_index);
        if v.last().1.contains(piece_index) {
            rest.push(v.last().0)
        } else {
            rest
        }
    }
}

pub open spec fn peer_ids_view(v: Seq<PeerId>) -> Seq<Seq<u8>> {
    v.map_values(|p: PeerId| p@)
}

/// The filters of a bounded set of peers, kept in the order in which peers first
/// advertised.
pub struct ArchivalStorageInfo {
    peers: Vec<PeerFilter>,
}

impl View for ArchivalStorageInfo {
    type V = Seq<PeerEntry>;

    closed spec fn view(&self) -> Seq<PeerEntry> {
        self.peers@.map_values(|e: PeerFilter| e.entry())
    }
}

impl ArchivalStorageInfo {
    /// Each peer at most once, and no more than the limit.
    pub open spec fn well_formed(&self) -> bool {
        unique_peers(self@) && self@.len() <= CONNECTED_PEERS_NUMBER_LIMIT
    }

    pub fn new() -> (r: ArchivalStorageInfo)
        ensures
            r@ == Seq::<PeerEntry>::empty(),
            r.well_formed(),
    {
        let r = ArchivalStorageInfo { peers: Vec::new() };
        assert(r@ =~= Seq::<PeerEntry>::empty());
        r
    }

    /// The number of tracked peers.
    pub fn len(&self) -> (r: usize)
        ensures
            r == self@.len(),
    {
        self.peers.len()
    }

    /// The tracked peers, in order.
    pub fn peer_ids(&self) -> (r: Vec<PeerId>)
        ensures
            r@.len() == self@.len(),
            forall|i: int| 0 <= i < self@.len() ==> (#[trigger] r@[i])@ == self@[i].0,
    {
        let mut result: Vec<PeerId> = Vec::new();
        let mut i: usize = 0;
        while i < self.peers.len()
            invariant
                i <= self.peers@.len(),
                self@.len() == self.peers@.len(),
                result@.len() == i,
                forall|j: int| 0 <= j < i ==> (#[trigger] result@[j])@ == self@[j].0,
            decreases self.peers@.len() - i,
        {
            assert(self@[i as int] == self.peers@[i as int].entry());
            result.push(self.peers[i].peer_id.duplicate());
            i = i + 1;
        }
        result
    }

    /// Where `peer_id` stands, if it is tracked.
    fn find(&self, peer_id: &PeerId) -> (r: Option<usize>)
        requires
            self.well_formed(),
        ensures
            match r {
                Some(i) => i < self@.len() && contains_peer(self@, peer_id@) && peer_position(self@, peer_id@) == i,
                None => !contains_peer(self@, peer_id@),
            },
    {
        let mut i: usize = 0;
        while i < self.peers.len()
            invariant
                i <= self@.len(),
                self@.len() == self.peers@.len(),
                self.well_formed(),
                forall|j: int| 0 <= j < i ==> (#[trigger] self@[j]).0 != peer_id@,
            decreases self.peers@.len() - i,
        {
            assert(self@[i as int] == self.peers@[i as int].entry());
            if self.peers[i].peer_id.same_as(peer_id) {
                assert(self@[i as int].0 == peer_id@);
                assert(contains_peer(self@, peer_id@));
                let ghost p = peer_position(self@, peer_id@);
                assert(p == i) by {
                    if p != i {
                        assert(self@[p].0 != self@[i as int].0);
                    }
                }
                return Some(i);
            }
            i = i + 1;
        }
        None
    }

    /// Stores the filter that `peer_id` advertised, in place of its earlier one.
    /// Past the limit, one tracked peer (possibly `peer_id`) is evicted: the one at
    /// position `draw` once the filter is stored.
    pub fn update_cuckoo_filter_with_draw(&mut self, peer_id: PeerId, cuckoo_filter_dto: &CuckooFilterDTO, draw: usize)
        requires
            old(self).well_formed(),
            draw <= CONNECTED_PEERS_NUMBER_LIMIT,
        ensures
            final(self).well_formed(),
            final(self)@ == after_update(old(self)@, peer_id@, advertised_members(cuckoo_filter_dto.values@), draw as int),
    {
        let ghost members = advertised_members(cuckoo_filter_dto.values@);
        let ghost v0 = self@;
        let populated = cuckoo_filter_dto.values.len() > 0;
        let filter = filter_from_export(cuckoo_filter_dto.values.clone(), cuckoo_filter_dto.length as usize);
        match self.find(&peer_id) {
            Some(i) => {
                self.peers.set(i, PeerFilter { peer_id, filter, populated });
                assert(self@ =~= v0.update(i as int, (peer_id@, members)));
            },
            None => {
                self.peers.push(PeerFilter { peer_id, filter, populated });
                assert(self@ =~= v0.push((peer_id@, members)));
            },
        }
        let ghost u = self@;
        assert(u == upserted(v0, peer_id@, members));
        proof {
            lemma_upserted_unique(v0, peer_id@, members);
        }
        if self.peers.len() > CONNECTED_PEERS_NUMBER_LIMIT {
            self.peers.remove(draw);
            assert(self@ =~= u.remove(draw as int));
            proof {
                lemma_remove_keeps_unique(u, draw as int);
            }
        }
    }

    /// Stores the filter that `peer_id` advertised, in place of its earlier one.
    /// When a new peer comes in at the limit, one tracked peer (possibly the new
    /// one) is evicted, at a position drawn by a generator seeded with the hash of
    /// `peer_id`, so that the choice follows the content of the updates.
    pub fn update_cuckoo_filter(&mut self, peer_id: PeerId, cuckoo_filter_dto: &CuckooFilterDTO)
        requires
            old(self).well_formed(),
        ensures
            final(self).well_formed(),
            exists|draw: int|
                0 <= draw <= CONNECTED_PEERS_NUMBER_LIMIT && #[trigger] after_update(
                    old(self)@,
                    peer_id@,
                    advertised_members(cuckoo_filter_dto.values@),
                    draw,
                ) == final(self)@,
    {
        let draw = if self.peers.len() == CONNECTED_PEERS_NUMBER_LIMIT && self.find(&peer_id).is_none() {
            pick_index(seed_of(&peer_id), CONNECTED_PEERS_NUMBER_LIMIT + 1)
        } else {
            0
        };
        self.update_cuckoo_filter_with_draw(peer_id, cuckoo_filter_dto, draw);
    }

    /// Forgets `peer_id`'s filter; true if it was tracked.
    pub fn remove_peer_filter(&mut self, peer_id: &PeerId) -> (r: bool)
        requires
            old(self).well_formed(),
        ensures
            final(self).well_formed(),
            r == contains_peer(old(self)@, peer_id@),
            final(self)@ == without_peer(old(self)@, peer_id@),
    {
        let ghost v0 = self@;
        match self.find(peer_id) {
            Some(i) => {
                self.peers.remove(i);
                assert(self@ =~= v0.remove(i as int));
                proof {
                    lemma_remove_keeps_unique(v0, i as int);
                }
                true
            },
            None => false,
        }
    }

    /// The peers whose filter reports that they may hold `piece_index`, in the
    /// order in which they are tracked.
    pub fn peers_contain_piece(&self, piece_index: u64) -> (r: Vec<PeerId>)
        ensures
            peer_ids_view(r@) == peers_reporting(self@, piece_index),
    {
        let mut result: Vec<PeerId> = Vec::new();
        let mut i: usize = 0;
        while i < self.peers.len()
            invariant
                i <= self.peers@.len(),
                self@.len() == self.peers@.len(),
                peer_ids_view(result@) == peers_reporting(self@.take(i as int), piece_index),
            decreases self.peers@.len() - i,
        {
            let entry = &self.peers[i];
            assert(self@[i as int] == entry.entry());
            assert(self@.take(i + 1).drop_last() =~= self@.take(i as int));
            proof {
                use_type_invariant(entry);
            }
            let reports = if entry.populated {
                filter_contains(&entry.filter, piece_index)
            } else {
                false
            };
            if reports {
                let p = entry.peer_id.duplicate();
                result.push(p);
                assert(peer_ids_view(result@) =~= peers_reporting(self@.take(i + 1), piece_index));
            } else {
                assert(peer_ids_view(result@) =~= peers_reporting(self@.take(i + 1), piece_index));
            }
            i = i + 1;
        }
        assert(self@.take(self@.len() as int) =~= self@);
        result
    }
}

impl Default for ArchivalStorageInfo {
    fn default() -> (r: ArchivalStorageInfo)
        ensures
            r@ == Seq::<PeerEntry>::empty(),
    {
        ArchivalStorageInfo::new()
    }
}

/// A peer that advertises for the first time while the limit is reached leaves
/// exactly the limit tracked, whichever position the eviction draw picks: the peer
/// at that position leaves, and every other peer, the newcomer included, stays.
/// Which peer leaves depends on the prior peers, the update and the draw alone.
pub proof fn lemma_eviction_at_limit(v: Seq<PeerEntry>, peer: Seq<u8>, members: Set<u64>, pick: int)
    requires
        unique_peers(v),
        v.len() == CONNECTED_PEERS_NUMBER_LIMIT,
        !contains_peer(v, peer),
        0 <= pick <= CONNECTED_PEERS_NUMBER_LIMIT,
    ensures
        after_update(v, peer, members, pick).len() == CONNECTED_PEERS_NUMBER_LIMIT,
        unique_peers(after_update(v, peer, members, pick)),
        !contains_peer(after_update(v, peer, members, pick), upserted(v, peer, members)[pick].0),
        forall|i: int|
            0 <= i < upserted(v, peer, members).len() && i != pick ==> contains_peer(
                after_update(v, peer, members, pick),
                (#[trigger] upserted(v, peer, members)[i]).0,
            ),
{
    let u = upserted(v, peer, members);
    let after = after_update(v, peer, members, pick);
    lemma_upserted_unique(v, peer, members);
    assert(u.len() == CONNECTED_PEERS_NUMBER_LIMIT + 1);
    assert(after == u.remove(pick));
    lemma_remove_keeps_unique(u, pick);
    if contains_peer(after, u[pick].0) {
        let j = choose|j: int| 0 <= j < after.len() && (#[trigger] after[j]).0 == u[pick].0;
        let b = if j < pick { j } else { j + 1 };
        assert(after[j] == u[b]);
    }
    assert forall|i: int| 0 <= i < u.len() && i != pick implies contains_peer(after, (#[trigger] u[i]).0) by {
        let j = if i < pick { i } else { i - 1 };
        assert(after[j] == u[i]);
    }
}

proof fn lemma_upserted_unique(v: Seq<PeerEntry>, peer: Seq<u8>, members: Set<u64>)
    requires
        unique_peers(v),
    ensures
        unique_peers(upserted(v, peer, members)),
        upserted(v, peer, members).len() <= v.len() + 1,
        contains_peer(v, peer) ==> upserted(v, peer, members).len() == v.len(),
{
    let u = upserted(v, peer, members);
    if contains_peer(v, peer) {
        let p = peer_position(v, peer);
        assert forall|i: int, j: int| 0 <= i < u.len() && 0 <= j < u.len() && i != j implies (#[trigger] u[i]).0 != (#[trigger] u[j]).0 by {
            if i == p {
                assert(v[j].0 != v[p].0);
            } else if j == p {
                assert(v[i].0 != v[p].0);
            }
        }
    } else {
        assert forall|i: int, j: int| 0 <= i < u.len() && 0 <= j < u.len() && i != j implies (#[trigger] u[i]).0 != (#[trigger] u[j]).0 by {
            if i == v.len() {
                assert(v[j].0 != peer);
            } else if j == v.len() {
                assert(v[i].0 != peer);
            }
        }
    }
}

proof fn lemma_remove_keeps_unique(v: Seq<PeerEntry>, k: int)
    requires
        unique_peers(v),
        0 <= k < v.len(),
    ensures
        unique_peers(v.remove(k)),
{
    let w = v.remove(k);
    assert forall|i: int, j: int| 0 <= i < w.len() && 0 <= j < w.len() && i != j implies (#[trigger] w[i]).0 != (#[trigger] w[j]).0 by {
        let a = if i < k { i } else { i + 1 };
        let b = if j < k { j } else { j + 1 };
        assert(w[i] == v[a]);
        assert(w[j] == v[b]);
    }
}

} // verus!
