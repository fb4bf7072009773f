//! Bounded cache of the points that payload filters select.

use std::sync::Arc;

use vstd::prelude::*;

use crate::filter::{Filter, FilterView};
use crate::types::PointOffsetType;

verus! {

/// The cache holds at most this many filters.
pub const FILTER_CACHE_MAX_ENTRIES: usize = 4096;

/// The cached points take at most this many bytes.
pub const FILTER_CACHE_MAX_BYTES: usize = 67108864;

/// Size of a point ordinal in bytes.
pub const POINT_SIZE: usize = 4;

/// Bounded, segment-local cache of the points that payload filters select.
///
/// Every change of the payload or of its index advances the payload epoch, so a hit always
/// belongs to the same state of the payload index.
#[derive(Debug)]
pub struct GpuFilterCandidateCache {
    payload_epoch: u64,
    entries: Vec<(Filter, Arc<Vec<PointOffsetType>>)>,
    cached_points: usize,
}

/// Contents of the cache.
#[verifier::ext_equal]
pub ghost struct FilterCacheView {
    pub payload_epoch: u64,
    pub entries: Map<FilterView, Seq<PointOffsetType>>,
    /// Number of cached points.
    pub points: nat,
}

/// The map that entries stand for.
spec fn cache_map(
    entries: Seq<(Filter, Arc<Vec<PointOffsetType>>)>,
) -> Map<FilterView, Seq<PointOffsetType>>
    decreases entries.len(),
{
    if entries.len() == 0 {
        Map::empty()
    } else {
        cache_map(entries.drop_last()).insert(entries.last().0.model(), entries.last().1@)
    }
}

/// Number of points in the entries.
spec fn cache_points(entries: Seq<(Filter, Arc<Vec<PointOffsetType>>)>) -> nat
    decreases entries.len(),
{
    if entries.len() == 0 {
        0
    } else {
        cache_points(entries.drop_last()) + entries.last().1@.len()
    }
}

/// No filter occurs twice.
spec fn distinct_filters(entries: Seq<(Filter, Arc<Vec<PointOffsetType>>)>) -> bool {
    forall|i: int, j: int|
        0 <= i < j < entries.len() ==> (#[trigger] entries[i]).0.model() != (
        #[trigger] entries[j]).0.model()
}

impl View for GpuFilterCandidateCache {
    type V = FilterCacheView;

    closed spec fn view(&self) -> FilterCacheView {
        FilterCacheView {
            payload_epoch: self.payload_epoch,
            entries: cache_map(self.entries@),
            points: cache_points(self.entries@),
        }
    }
}

/// A map holds exactly its entries.
proof fn lemma_cache_map(entries: Seq<(Filter, Arc<Vec<PointOffsetType>>)>)
    requires
        distinct_filters(entries),
    ensures
        cache_map(entries).dom().finite(),
        cache_map(entries).len() == entries.len(),
        forall|i: int|
            0 <= i < entries.len() ==> {
                &&& cache_map(entries).contains_key((#[trigger] entries[i]).0.model())
                &&& cache_map(entries)[entries[i].0.model()] == entries[i].1@
            },
        forall|key: FilterView| #[trigger]
            cache_map(entries).contains_key(key) ==> exists|i: int|
                0 <= i < entries.len() && (#[trigger] entries[i]).0.model() == key,
    decreases entries.len(),
{
    if entries.len() > 0 {
        let previous = entries.drop_last();
        assert forall|i: int, j: int| 0 <= i < j < previous.len() implies (
        #[trigger] previous[i]).0.model() != (#[trigger] previous[j]).0.model() by {
            assert(previous[i] == entries[i] && previous[j] == entries[j]);
        }
        lemma_cache_map(previous);
        let last = entries.last();
        assert(!cache_map(previous).contains_key(last.0.model())) by {
            if cache_map(previous).contains_key(last.0.model()) {
                let i = choose|i: int|
                    0 <= i < previous.len() && (#[trigger] previous[i]).0.model()
                        == last.0.model();
                assert(entries[i].0.model() != entries[entries.len() - 1].0.model());
            }
        }
        assert forall|i: int| 0 <= i < entries.len() implies cache_map(entries).contains_key(
            (#[trigger] entries[i]).0.model(),
        ) && cache_map(entries)[entries[i].0.model()] == entries[i].1@ by {
            if i < previous.len() {
                assert(previous[i] == entries[i]);
                assert(entries[i].0.model() != entries[entries.len() - 1].0.model());
            }
        }
        assert forall|key: FilterView| #[trigger]
            cache_map(entries).contains_key(key) implies exists|i: int|
            0 <= i < entries.len() && (#[trigger] entries[i]).0.model() == key by {
            if key == last.0.model() {
                assert(entries[entries.len() - 1].0.model() == key);
            } else {
                let i = choose|i: int|
                    0 <= i < previous.len() && (#[trigger] previous[i]).0.model() == key;
                assert(entries[i].0.model() == key);
            }
        }
    } else {
        assert(cache_map(entries).dom() =~= Set::empty());
    }
}

impl FilterCacheView {
    /// The limits hold.
    pub open spec fn bounded(self) -> bool {
        &&& self.entries.dom().finite()
        &&& self.entries.len() <= FILTER_CACHE_MAX_ENTRIES
        &&& self.points * POINT_SIZE <= FILTER_CACHE_MAX_BYTES
    }

    /// The cache for an epoch: empty unless it already belongs to it.
    pub open spec fn at_epoch(self, payload_epoch: u64) -> FilterCacheView {
        if self.payload_epoch == payload_epoch {
            self
        } else {
            FilterCacheView { payload_epoch, entries: Map::empty(), points: 0 }
        }
    }

    /// The cache with room for some more points: emptied when a limit would be exceeded.
    pub open spec fn with_room(self, points: nat) -> FilterCacheView {
        if self.entries.len() >= FILTER_CACHE_MAX_ENTRIES || (self.points + points) * POINT_SIZE
            > FILTER_CACHE_MAX_BYTES {
            FilterCacheView { entries: Map::empty(), points: 0, ..self }
        } else {
            self
        }
    }

    /// The cache after points were offered to it.
    pub open spec fn offered(
        self,
        filter: FilterView,
        candidates: Seq<PointOffsetType>,
    ) -> FilterCacheView {
        if candidates.len() * POINT_SIZE > FILTER_CACHE_MAX_BYTES || self.entries.contains_key(
            filter,
        ) {
            self
        } else {
            let base = self.with_room(candidates.len());
            FilterCacheView {
                entries: base.entries.insert(filter, candidates),
                points: base.points + candidates.len(),
                ..base
            }
        }
    }
}

impl GpuFilterCandidateCache {
    /// Entries are distinct, the number of points is known, and the limits hold.
    pub closed spec fn wf(&self) -> bool {
        &&& distinct_filters(self.entries@)
        &&& self.cached_points == cache_points(self.entries@)
        &&& self@.bounded()
    }

    /// The limits hold of every cache.
    pub proof fn lemma_bounded(&self)
        requires
            self.wf(),
        ensures
            self@.bounded(),
    {
    }

    /// Remove all entries.
    pub fn clear(&mut self)
        ensures
            final(self).wf(),
            final(self)@ == (FilterCacheView {
                entries: Map::empty(),
                points: 0,
                ..old(self)@
            }),
    {
        self.entries = Vec::new();
        self.cached_points = 0;
        proof {
            lemma_cache_map(self.entries@);
        }
    }

    fn synchronize_epoch(&mut self, payload_epoch: u64)
        requires
            old(self).wf(),
        ensures
            final(self).wf(),
            final(self)@ == old(self)@.at_epoch(payload_epoch),
    {
        if self.payload_epoch != payload_epoch {
            self.clear();
            self.payload_epoch = payload_epoch;
        }
    }

    /// Where the entry of a filter stands.
    fn position(&self, filter: &Filter) -> (r: Option<usize>)
        requires
            self.wf(),
        ensures
            match r {
                Some(i) => i < self.entries@.len() && self.entries@[i as int].0.model()
                    == filter.model() && self@.entries.contains_key(filter.model())
                    && self@.entries[filter.model()] == self.entries@[i as int].1@,
                None => !self@.entries.contains_key(filter.model()),
            },
    {
        proof {
            lemma_cache_map(self.entries@);
        }
        let mut i: usize = 0;
        while i < self.entries.len()
            invariant
                self.wf(),
                i <= self.entries@.len(),
                forall|j: int|
                    0 <= j < i ==> (#[trigger] self.entries@[j]).0.model() != filter.model(),
                forall|j: int|
                    0 <= j < self.entries@.len() ==> {
                        &&& cache_map(self.entries@).contains_key(
                            (#[trigger] self.entries@[j]).0.model(),
                        )
                        &&& cache_map(self.entries@)[self.entries@[j].0.model()]
                            == self.entries@[j].1@
                    },
            decreases self.entries@.len() - i,
        {
            if self.entries[i].0.same(filter) {
                return Some(i);
            }
            i = i + 1;
        }
        None
    }

    /// The points that a filter selects, when they are cached for the epoch. Entries of another
    /// epoch are removed.
    pub fn get(&mut self, filter: &Filter, payload_epoch: u64) -> (r: Option<
        Arc<Vec<PointOffsetType>>,
    >)
        requires
            old(self).wf(),
        ensures
            final(self).wf(),
            final(self)@ == old(self)@.at_epoch(payload_epoch),
            r is Some <==> final(self)@.entries.contains_key(filter.model()),
            r matches Some(list) ==> list@ == final(self)@.entries[filter.model()],
    {
        self.synchronize_epoch(payload_epoch);
        match self.position(filter) {
            Some(i) => Some(self.entries[i].1.clone()),
            None => None,
        }
    }

    /// Offer the points that a filter selects. Too many points are not cached, and an entry is
    /// never replaced. When a limit would be exceeded, all other entries are removed first.
    pub fn insert(
        &mut self,
        filter: Filter,
        candidates: Arc<Vec<PointOffsetType>>,
        payload_epoch: u64,
    )
        requires
            old(self).wf(),
        ensures
            final(self).wf(),
            final(self)@ == old(self)@.at_epoch(payload_epoch).offered(
                filter.model(),
                candidates@,
            ),
    {
        self.synchronize_epoch(payload_epoch);
        let count: usize = candidates.len();
        if count > FILTER_CACHE_MAX_BYTES / POINT_SIZE {
            return;
        }
        if self.position(&filter).is_some() {
            return;
        }
        proof {
            lemma_cache_map(self.entries@);
        }
        if self.entries.len() >= FILTER_CACHE_MAX_ENTRIES || self.cached_points + count
            > FILTER_CACHE_MAX_BYTES / POINT_SIZE {
            self.clear();
        }
        let ghost before = self.entries@;
        let ghost view = self@;
        proof {
            lemma_cache_map(before);
        }
        self.cached_points = self.cached_points + count;
        self.entries.push((filter, candidates));
        proof {
            let entries = self.entries@;
            assert(entries.drop_last() =~= before);
            assert forall|i: int, j: int| 0 <= i < j < entries.len() implies (
            #[trigger] entries[i]).0.model() != (#[trigger] entries[j]).0.model() by {
                if j == before.len() {
                    assert(before[i] == entries[i]);
                    assert(view.entries.contains_key(before[i].0.model()));
                }
            }
            lemma_cache_map(entries);
        }
    }
}

impl Default for GpuFilterCandidateCache {
    /// An empty cache.
    fn default() -> (cache: Self)
        ensures
            cache.wf(),
            cache@ == (FilterCacheView { payload_epoch: 0, entries: Map::empty(), points: 0 }),
    {
        let cache = GpuFilterCandidateCache {
            payload_epoch: 0,
            entries: Vec::new(),
            cached_points: 0,
        };
        proof {
            lemma_cache_map(cache.entries@);
        }
        cache
    }
}

/// Points that were offered in an epoch are found in it: nothing else than the limits can keep
/// them out.
pub proof fn lemma_offered_is_found(
    cache: FilterCacheView,
    filter: FilterView,
    candidates: Seq<PointOffsetType>,
    payload_epoch: u64,
)
    requires
        candidates.len() * POINT_SIZE <= FILTER_CACHE_MAX_BYTES,
    ensures
        ({
            let base = cache.at_epoch(payload_epoch);
            let after = base.offered(filter, candidates);
            let found = after.at_epoch(payload_epoch);
            &&& found.entries.contains_key(filter)
            &&& !base.entries.contains_key(filter) ==> found.entries[filter] == candidates
            &&& base.entries.contains_key(filter) ==> found.entries[filter]
                == base.entries[filter]
        }),
{
}

/// Nothing is found in another epoch than the one it was offered in.
pub proof fn lemma_epochs_do_not_mix(
    cache: FilterCacheView,
    filter: FilterView,
    candidates: Seq<PointOffsetType>,
    offered_at: u64,
    asked_at: u64,
)
    requires
        offered_at != asked_at,
    ensures
        cache.at_epoch(offered_at).offered(filter, candidates).at_epoch(asked_at).entries
            =~= Map::<FilterView, Seq<PointOffsetType>>::empty(),
{
}

} // verus!
