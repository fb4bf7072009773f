//! Buffers that stay on a device between searches.

use std::sync::Arc;

use vstd::prelude::*;

use crate::entries::{
    distinct_keys, entries_map, lemma_entries_insert, lemma_entries_len, lemma_entries_map,
};
use crate::gpu::filter_cache::{FILTER_CACHE_MAX_BYTES, FILTER_CACHE_MAX_ENTRIES, POINT_SIZE};
use crate::types::PointOffsetType;

verus! {

/// A list of candidates that several searches share.
#[derive(Debug)]
pub struct SharedCandidates {
    /// Where the list lives. No two lists that are alive have the same address.
    pub address: usize,
    pub points: Arc<Vec<PointOffsetType>>,
}

impl SharedCandidates {
    /// Another handle on the same list.
    pub fn share(&self) -> (r: Self)
        ensures
            r.address == self.address,
            r.points@ == self.points@,
    {
        SharedCandidates { address: self.address, points: self.points.clone() }
    }
}

/// A list on the device.
#[derive(Debug)]
pub struct GpuResidentCandidateEntry {
    /// Keeps the list alive, so that no other list can get its address.
    pub candidates: Arc<Vec<PointOffsetType>>,
    pub buffer: u64,
}

/// Which lists of candidates are on the device.
#[derive(Debug)]
pub struct GpuResidentCandidateCache {
    entries: Vec<(usize, GpuResidentCandidateEntry)>,
    cached_bytes: usize,
}

/// Contents of the cache.
#[verifier::ext_equal]
pub ghost struct ResidentCandidatesView {
    /// Lists and buffers by the addresses of the lists.
    pub entries: Map<usize, (Seq<PointOffsetType>, u64)>,
    pub bytes: nat,
}

/// Entries by address.
spec fn resident_pairs(
    entries: Seq<(usize, GpuResidentCandidateEntry)>,
) -> Seq<(usize, (Seq<PointOffsetType>, u64))> {
    entries.map_values(
        |entry: (usize, GpuResidentCandidateEntry)|
            (entry.0, (entry.1.candidates@, entry.1.buffer)),
    )
}

/// Bytes of the lists.
spec fn resident_bytes(entries: Seq<(usize, GpuResidentCandidateEntry)>) -> nat
    decreases entries.len(),
{
    if entries.len() == 0 {
        0
    } else {
        resident_bytes(entries.drop_last()) + entries.last().1.candidates@.len()
            * POINT_SIZE as nat
    }
}

impl View for GpuResidentCandidateCache {
    type V = ResidentCandidatesView;

    closed spec fn view(&self) -> ResidentCandidatesView {
        ResidentCandidatesView {
            entries: entries_map(resident_pairs(self.entries@)),
            bytes: resident_bytes(self.entries@),
        }
    }
}

impl ResidentCandidatesView {
    /// A cache without lists.
    pub open spec fn empty() -> ResidentCandidatesView {
        ResidentCandidatesView { entries: Map::empty(), bytes: 0 }
    }

    /// The limits hold.
    pub open spec fn bounded(self) -> bool {
        &&& self.entries.dom().finite()
        &&& self.entries.len() <= FILTER_CACHE_MAX_ENTRIES
        &&& self.bytes <= FILTER_CACHE_MAX_BYTES
    }

    /// The cache after a list was put on the device. A list that is too large is not remembered.
    /// When a limit would be exceeded, all other lists are forgotten first.
    pub open spec fn remembered(
        self,
        address: usize,
        points: Seq<PointOffsetType>,
        buffer: u64,
    ) -> ResidentCandidatesView {
        let bytes = points.len() * POINT_SIZE as nat;
        if bytes > FILTER_CACHE_MAX_BYTES {
            self
        } else {
            let base = if self.entries.len() >= FILTER_CACHE_MAX_ENTRIES || self.bytes + bytes
                > FILTER_CACHE_MAX_BYTES {
                ResidentCandidatesView::empty()
            } else {
                self
            };
            if base.entries.contains_key(address) {
                base
            } else {
                ResidentCandidatesView {
                    entries: base.entries.insert(address, (points, buffer)),
                    bytes: base.bytes + bytes,
                }
            }
        }
    }
}

impl Default for GpuResidentCandidateCache {
    /// A cache without lists.
    fn default() -> (cache: Self)
        ensures
            cache.wf(),
            cache@ == ResidentCandidatesView::empty(),
    {
        let cache = GpuResidentCandidateCache { entries: Vec::new(), cached_bytes: 0 };
        proof {
            assert(resident_pairs(cache.entries@) =~= Seq::empty());
            lemma_entries_len(resident_pairs(cache.entries@));
        }
        cache
    }
}

impl GpuResidentCandidateCache {
    /// Addresses are distinct, the number of bytes is known, and the limits hold.
    pub closed spec fn wf(&self) -> bool {
        &&& distinct_keys(resident_pairs(self.entries@))
        &&& self.cached_bytes == resident_bytes(self.entries@)
        &&& self@.bounded()
    }

    /// The limits hold of every cache.
    pub proof fn lemma_bounded(&self)
        requires
            self.wf(),
        ensures
            self@.bounded(),
    {
    }

    /// Forget all lists.
    pub fn clear(&mut self)
        ensures
            final(self).wf(),
            final(self)@ == ResidentCandidatesView::empty(),
    {
        *self = GpuResidentCandidateCache::default();
    }

    /// The buffer of a list.
    pub fn get(&self, candidates: &SharedCandidates) -> (r: Option<u64>)
        requires
            self.wf(),
        ensures
            r == (if self@.entries.contains_key(candidates.address) {
                Some(self@.entries[candidates.address].1)
            } else {
                None
            }),
    {
        let ghost pairs = resident_pairs(self.entries@);
        proof {
            lemma_entries_map(pairs);
        }
        let mut i: usize = 0;
        while i < self.entries.len()
            invariant
                self.wf(),
                i <= self.entries@.len(),
                pairs == resident_pairs(self.entries@),
                forall|j: int| 0 <= j < i ==> (#[trigger] pairs[j]).0 != candidates.address,
                forall|j: int|
                    0 <= j < pairs.len() ==> entries_map(pairs).contains_key(
                        (#[trigger] pairs[j]).0,
                    ) && entries_map(pairs)[pairs[j].0] == pairs[j].1,
            decreases self.entries@.len() - i,
        {
            proof {
                assert(pairs[i as int].0 == self.entries@[i as int].0);
            }
            if self.entries[i].0 == candidates.address {
                return Some(self.entries[i].1.buffer);
            }
            i = i + 1;
        }
        None
    }

    /// Remember that a list is on the device.
    pub fn insert(&mut self, candidates: SharedCandidates, buffer: u64)
        requires
            old(self).wf(),
        ensures
            final(self).wf(),
            final(self)@ == old(self)@.remembered(
                candidates.address,
                candidates.points@,
                buffer,
            ),
    {
        let count: usize = candidates.points.len();
        if count > FILTER_CACHE_MAX_BYTES / POINT_SIZE {
            return;
        }
        let candidate_bytes: usize = count * POINT_SIZE;
        proof {
            lemma_entries_len(resident_pairs(self.entries@));
        }
        if self.entries.len() >= FILTER_CACHE_MAX_ENTRIES || self.cached_bytes + candidate_bytes
            > FILTER_CACHE_MAX_BYTES {
            self.clear();
        }
        if self.get(&candidates).is_some() {
            return;
        }
        let ghost before = self.entries@;
        let ghost pairs = resident_pairs(before);
        proof {
            lemma_entries_map(pairs);
            lemma_entries_len(pairs);
        }
        self.cached_bytes = self.cached_bytes + candidate_bytes;
        let SharedCandidates { address, points } = candidates;
        self.entries.push((address, GpuResidentCandidateEntry { candidates: points, buffer }));
        proof {
            let value = (points@, buffer);
            assert(self.entries@.drop_last() =~= before);
            assert(resident_pairs(self.entries@) =~= pairs.insert(
                pairs.len() as int,
                (address, value),
            ));
            lemma_entries_insert(pairs, pairs.len() as int, address, value);
            lemma_entries_len(resident_pairs(self.entries@));
        }
    }
}

/// Which state of the deletions is on the device.
#[derive(Clone, Copy, Debug, PartialEq, Eq, Structural)]
pub struct GpuResidentVisibilityEntry {
    pub generation: u64,
    pub bit_len: usize,
    pub buffer: u64,
}

/// The state of the deletions that is on the device.
#[derive(Clone, Copy, Debug, PartialEq, Eq, Structural)]
pub struct GpuResidentVisibilityCache {
    pub entry: Option<GpuResidentVisibilityEntry>,
}

impl Default for GpuResidentVisibilityCache {
    /// Nothing is on the device.
    fn default() -> (cache: Self)
        ensures
            cache.entry is None,
    {
        GpuResidentVisibilityCache { entry: None }
    }
}

impl GpuResidentVisibilityCache {
    /// The buffer of a state.
    pub open spec fn spec_get(&self, generation: u64, bit_len: usize) -> Option<u64> {
        match self.entry {
            Some(entry) => if entry.generation == generation && entry.bit_len == bit_len {
                Some(entry.buffer)
            } else {
                None
            },
            None => None,
        }
    }

    /// Forget the state.
    pub fn clear(&mut self)
        ensures
            final(self).entry is None,
    {
        self.entry = None;
    }

    /// The buffer of a state.
    pub fn get(&self, generation: u64, bit_len: usize) -> (r: Option<u64>)
        ensures
            r == self.spec_get(generation, bit_len),
    {
        match self.entry {
            Some(entry) => if entry.generation == generation && entry.bit_len == bit_len {
                Some(entry.buffer)
            } else {
                None
            },
            None => None,
        }
    }

    /// Remember that a state is on the device. Any other state is forgotten.
    pub fn insert(&mut self, generation: u64, bit_len: usize, buffer: u64)
        ensures
            final(self).entry == Some(GpuResidentVisibilityEntry { generation, bit_len, buffer }),
    {
        self.entry = Some(GpuResidentVisibilityEntry { generation, bit_len, buffer });
    }
}

/// A list that was put on the device is found there, unless it is too large.
pub proof fn lemma_remembered_is_found(
    cache: ResidentCandidatesView,
    address: usize,
    points: Seq<PointOffsetType>,
    buffer: u64,
)
    requires
        !cache.entries.contains_key(address),
        points.len() * POINT_SIZE <= FILTER_CACHE_MAX_BYTES,
    ensures
        cache.remembered(address, points, buffer).entries.contains_key(address),
        cache.remembered(address, points, buffer).entries[address] == (points, buffer),
{
}

} // verus!
