//! Parts of an index that are made once, and what the index tells of itself.

use vstd::prelude::*;

use crate::error::{failed, OperationError, OperationResult};
use crate::hnsw::params::{GpuSearchConfig, SearchTimer};
use crate::text::{text_order, TextOrder};

verus! {

/// Something that is made when it is first needed. It is not tried again when it could not be
/// made.
#[derive(Debug)]
pub struct OnceSlot<T> {
    /// What came of the attempt, if there was one.
    pub tried: Option<Option<T>>,
}

/// What came of the first attempt.
pub open spec fn made_once<T, F: Fn() -> OperationResult<Option<T>>>(
    create: &F,
    before: OnceSlot<T>,
    after: OnceSlot<T>,
    r: OperationResult<bool>,
) -> bool {
    match before.tried {
        Some(made) => {
            &&& after == before
            &&& r == Ok::<bool, OperationError>(made is Some)
        },
        None => exists|outcome: OperationResult<Option<T>>|
            {
                &&& #[trigger] create.ensures((), outcome)
                &&& match outcome {
                    Ok(made) => {
                        &&& after.tried == Some(made)
                        &&& r == Ok::<bool, OperationError>(made is Some)
                    },
                    Err(error) => {
                        &&& after.tried == Some(None::<T>)
                        &&& r == Err::<bool, OperationError>(error)
                    },
                }
            },
    }
}

impl<T> OnceSlot<T> {
    /// Nothing was tried.
    pub fn new() -> (slot: Self)
        ensures
            slot.tried is None,
    {
        OnceSlot { tried: None }
    }

    /// What was made.
    pub fn get(&self) -> (r: Option<&T>)
        ensures
            match self.tried {
                Some(Some(made)) => r == Some(&made),
                _ => r is None,
            },
    {
        match &self.tried {
            Some(Some(made)) => Some(made),
            _ => None,
        }
    }

    /// Make the thing when it is first needed, and tell whether there is one. An error of the one
    /// attempt is reported.
    pub fn get_or_init<F: Fn() -> OperationResult<Option<T>>>(&mut self, create: &F) -> (r:
        OperationResult<bool>)
        requires
            create.requires(()),
        ensures
            made_once(create, *old(self), *final(self), r),
    {
        match &self.tried {
            Some(Some(_)) => {
                return Ok(true);
            },
            Some(None) => {
                return Ok(false);
            },
            None => {},
        }
        match create() {
            Ok(made) => {
                proof {
                    let outcome: OperationResult<Option<T>> = Ok(made);
                    assert(create.ensures((), outcome));
                }
                let there: bool = made.is_some();
                self.tried = Some(made);
                Ok(there)
            },
            Err(error) => {
                proof {
                    let outcome: OperationResult<Option<T>> = Err(error);
                    assert(create.ensures((), outcome));
                }
                self.tried = Some(None);
                Err(error)
            },
        }
    }
}

/// What must be switched on for the device to be used.
pub open spec fn gpu_wanted(gpu: GpuSearchConfig, router: bool) -> bool {
    gpu.enabled && (!router || gpu.router_enabled)
}

/// Set up exact search on the device when it is first needed.
pub fn gpu_exact_search_cache<T, F: Fn() -> OperationResult<Option<T>>>(
    gpu: &GpuSearchConfig,
    slot: &mut OnceSlot<T>,
    create: &F,
) -> (r: OperationResult<bool>)
    requires
        create.requires(()),
    ensures
        if gpu_wanted(*gpu, false) {
            made_once(create, *old(slot), *final(slot), r)
        } else {
            r == Ok::<bool, OperationError>(false) && *final(slot) == *old(slot)
        },
{
    if !gpu.enabled {
        return Ok(false);
    }
    slot.get_or_init(create)
}

/// Set up filtered graph search on the device when it is first needed.
pub fn gpu_filtered_graph_search_cache<T, F: Fn() -> OperationResult<Option<T>>>(
    gpu: &GpuSearchConfig,
    slot: &mut OnceSlot<T>,
    create: &F,
) -> (r: OperationResult<bool>)
    requires
        create.requires(()),
    ensures
        if gpu_wanted(*gpu, true) {
            made_once(create, *old(slot), *final(slot), r)
        } else {
            r == Ok::<bool, OperationError>(false) && *final(slot) == *old(slot)
        },
{
    if !gpu.enabled || !gpu.router_enabled {
        return Ok(false);
    }
    slot.get_or_init(create)
}

/// Nothing is made twice: whatever happens later, the outcome of the first attempt stays.
pub proof fn lemma_made_once<T, F: Fn() -> OperationResult<Option<T>>>(
    create: &F,
    first: OnceSlot<T>,
    second: OnceSlot<T>,
    third: OnceSlot<T>,
    a: OperationResult<bool>,
    b: OperationResult<bool>,
)
    requires
        made_once(create, first, second, a),
        made_once(create, second, third, b),
    ensures
        third == second,
        b matches Ok(there) && there == (second.tried matches Some(Some(_))),
        a matches Ok(there) ==> b == Ok::<bool, OperationError>(there),
{
}

/// Whether batches with different filters may be factorized. A setting switches it off.
pub fn factorized_filter_batch_enabled(setting: Option<&str>) -> (r: bool)
    ensures
        r == (match setting {
            Some(value) => value@ != "0"@ && value@ != "false"@ && value@ != "off"@,
            None => true,
        }),
{
    match setting {
        Some(value) => {
            let zero = text_order(value, "0");
            let no = text_order(value, "false");
            let off = text_order(value, "off");
            zero != TextOrder::Same && no != TextOrder::Same && off != TextOrder::Same
        },
        None => true,
    }
}

/// Statistics of searches, one for each way of searching.
#[derive(Debug)]
pub struct HnswSearchesTelemetry<T> {
    pub unfiltered_plain: T,
    pub filtered_plain: T,
    pub unfiltered_hnsw: T,
    pub small_cardinality: T,
    pub large_cardinality: T,
    pub exact_filtered: T,
    pub exact_unfiltered: T,
}

/// Statistics as an index reports them.
#[derive(Debug)]
pub struct VectorIndexSearchesTelemetry<T> {
    pub index_name: Option<String>,
    pub unfiltered_plain: T,
    pub filtered_plain: T,
    pub unfiltered_hnsw: T,
    pub filtered_small_cardinality: T,
    pub filtered_large_cardinality: T,
    pub filtered_exact: T,
    /// This index has no sparse searches.
    pub filtered_sparse: Option<T>,
    pub unfiltered_exact: T,
    pub unfiltered_sparse: Option<T>,
}

impl<T> HnswSearchesTelemetry<T> {
    /// The statistics that a search is counted in.
    pub fn timer(&self, timer: SearchTimer) -> (statistics: &T)
        ensures
            *statistics == (match timer {
                SearchTimer::UnfilteredPlain => self.unfiltered_plain,
                SearchTimer::FilteredPlain => self.filtered_plain,
                SearchTimer::UnfilteredHnsw => self.unfiltered_hnsw,
                SearchTimer::SmallCardinality => self.small_cardinality,
                SearchTimer::LargeCardinality => self.large_cardinality,
                SearchTimer::ExactFiltered => self.exact_filtered,
                SearchTimer::ExactUnfiltered => self.exact_unfiltered,
            }),
    {
        match timer {
            SearchTimer::UnfilteredPlain => &self.unfiltered_plain,
            SearchTimer::FilteredPlain => &self.filtered_plain,
            SearchTimer::UnfilteredHnsw => &self.unfiltered_hnsw,
            SearchTimer::SmallCardinality => &self.small_cardinality,
            SearchTimer::LargeCardinality => &self.large_cardinality,
            SearchTimer::ExactFiltered => &self.exact_filtered,
            SearchTimer::ExactUnfiltered => &self.exact_unfiltered,
        }
    }

    /// Report the statistics.
    pub fn get_telemetry_data(self) -> (r: VectorIndexSearchesTelemetry<T>)
        ensures
            r == (VectorIndexSearchesTelemetry {
                index_name: None,
                unfiltered_plain: self.unfiltered_plain,
                filtered_plain: self.filtered_plain,
                unfiltered_hnsw: self.unfiltered_hnsw,
                filtered_small_cardinality: self.small_cardinality,
                filtered_large_cardinality: self.large_cardinality,
                filtered_exact: self.exact_filtered,
                filtered_sparse: None,
                unfiltered_exact: self.exact_unfiltered,
                unfiltered_sparse: None,
            }),
    {
        VectorIndexSearchesTelemetry {
            index_name: None,
            unfiltered_plain: self.unfiltered_plain,
            filtered_plain: self.filtered_plain,
            unfiltered_hnsw: self.unfiltered_hnsw,
            filtered_small_cardinality: self.small_cardinality,
            filtered_large_cardinality: self.large_cardinality,
            filtered_exact: self.exact_filtered,
            filtered_sparse: None,
            unfiltered_exact: self.exact_unfiltered,
            unfiltered_sparse: None,
        }
    }
}

/// A graph index cannot be changed.
pub fn update_vector() -> (r: OperationResult<()>)
    ensures
        failed(r, "Cannot update HNSW index"@),
{
    Err(OperationError::service_error("Cannot update HNSW index"))
}

} // verus!
