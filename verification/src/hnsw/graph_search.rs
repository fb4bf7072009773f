//! Search over the graph of an index.

use std::sync::Arc;

use vstd::prelude::*;

use crate::arith::max_usize;
use crate::error::{OperationError, OperationResult};
use crate::filter::{Filter, FilterView};
use crate::gpu::filter_cache::{FilterCacheView, GpuFilterCandidateCache};
use crate::gpu::visibility::GpuVisibilitySnapshot;
use crate::hnsw::filters::{gpu_filter_cacheable, payload_only};
use crate::hnsw::params::{
    CardinalityEstimation, GpuSearchConfig, HnswGraphConfig, SearchParams,
};
use crate::storage::{
    is_context_of, DiscoverQuery, QueryVector, VectorElementType, VectorInternal,
};
use crate::types::{PointOffsetType, ScoredPointOffset};

verus! {

/// How the graph is searched.
#[derive(Clone, Copy, Debug, PartialEq, Eq, Structural)]
pub enum SearchAlgorithm {
    Hnsw,
    Acorn,
}

/// Result of one query.
pub type QueryResult = OperationResult<Vec<ScoredPointOffset>>;

/// Result of one query that may not have been answered.
pub type MaybeResult = OperationResult<Option<Vec<ScoredPointOffset>>>;

/// State of a segment as far as graph search depends on it.
#[derive(Clone, Copy, Debug, PartialEq, Eq, Structural)]
pub struct GraphSearchState {
    /// Number of vectors that are not deleted.
    pub available_vector_count: usize,
    pub total_vector_count: usize,
    pub deleted_point_count: usize,
    pub deleted_vector_count: usize,
    /// The payload index can still change.
    pub payload_appendable: bool,
    pub payload_epoch: u64,
    /// Vectors are stored beside the links.
    pub has_inline_vectors: bool,
    /// The search uses quantized vectors.
    pub quantized_search: bool,
    /// Number of results to ask for before they are scored again.
    pub oversampled_top: usize,
}

/// Deletions that a search sees instead of those of the segment.
#[derive(Clone, Copy, Debug)]
pub struct QueryDeletions<'a> {
    pub deleted_points: Option<&'a [bool]>,
    pub generation: Option<u64>,
}

/// The deletions as a state with a name, when they have one and fit.
pub open spec fn snapshot_of(
    deletions: QueryDeletions,
    total_vector_count: usize,
) -> Option<GpuVisibilitySnapshot> {
    match (deletions.deleted_points, deletions.generation) {
        (Some(deleted), Some(generation)) => if generation != 0 && deleted@.len()
            <= total_vector_count {
            Some(GpuVisibilitySnapshot { generation, deleted, point_count: total_vector_count })
        } else {
            None
        },
        _ => None,
    }
}

/// The deletions as a state with a name, when they have one and fit.
pub fn visibility_snapshot<'a>(
    deletions: QueryDeletions<'a>,
    total_vector_count: usize,
) -> (r: Option<GpuVisibilitySnapshot<'a>>)
    ensures
        r == snapshot_of(deletions, total_vector_count),
{
    match (deletions.deleted_points, deletions.generation) {
        (Some(deleted), Some(generation)) => {
            if generation != 0 && deleted.len() <= total_vector_count {
                Some(GpuVisibilitySnapshot { generation, deleted, point_count: total_vector_count })
            } else {
                None
            }
        },
        _ => None,
    }
}

/// Number of points that a search keeps.
pub open spec fn ef_of(config: HnswGraphConfig, params: Option<SearchParams>) -> usize {
    match params {
        Some(params) => match params.hnsw_ef {
            Some(ef) => ef,
            None => config.ef,
        },
        None => config.ef,
    }
}

/// The second algorithm is asked for, and the largest share it is meant for.
pub open spec fn acorn_of(params: Option<SearchParams>) -> Option<Option<u64>> {
    match params {
        Some(params) => match params.acorn {
            Some(acorn) => if acorn.enable {
                Some(acorn.max_selectivity)
            } else {
                None
            },
            None => None,
        },
        None => None,
    }
}

/// The algorithm for a share of points.
pub open spec fn algorithm_for<A: Fn(usize, usize, Option<u64>) -> bool>(
    selective: &A,
    part: usize,
    whole: usize,
    max_selectivity: Option<u64>,
    algorithm: SearchAlgorithm,
) -> bool {
    selective.ensures((part, whole, max_selectivity), algorithm == SearchAlgorithm::Acorn)
}

/// The choice of the algorithm. The second one is chosen for filters that select a small share of
/// the points, when it is asked for.
pub open spec fn algorithm_chosen<
    E: Fn(&Filter) -> OperationResult<CardinalityEstimation>,
    A: Fn(usize, usize, Option<u64>) -> bool,
>(
    config: HnswGraphConfig,
    available_vector_count: usize,
    filter: Option<&Filter>,
    params: Option<SearchParams>,
    estimate: &E,
    selective: &A,
    r: OperationResult<SearchAlgorithm>,
) -> bool {
    match (acorn_of(params), filter) {
        (Some(max_selectivity), Some(filter)) => if config.m0 == 0 {
            r == Ok::<SearchAlgorithm, OperationError>(SearchAlgorithm::Hnsw)
        } else if available_vector_count == 0 {
            r matches Ok(algorithm) && algorithm_for(selective, 1, 1, max_selectivity, algorithm)
        } else {
            exists|estimated: OperationResult<CardinalityEstimation>|
                {
                    &&& #[trigger] estimate.ensures((filter,), estimated)
                    &&& match estimated {
                        Err(error) => r == Err::<SearchAlgorithm, OperationError>(error),
                        Ok(cardinality) => r matches Ok(algorithm) && algorithm_for(
                            selective,
                            cardinality.exp,
                            available_vector_count,
                            max_selectivity,
                            algorithm,
                        ),
                    }
                }
        },
        _ => r == Ok::<SearchAlgorithm, OperationError>(SearchAlgorithm::Hnsw),
    }
}

/// Choose the algorithm. `selective` tells whether a share of the points is small enough.
pub fn choose_algorithm<
    E: Fn(&Filter) -> OperationResult<CardinalityEstimation>,
    A: Fn(usize, usize, Option<u64>) -> bool,
>(
    config: &HnswGraphConfig,
    available_vector_count: usize,
    filter: Option<&Filter>,
    params: Option<SearchParams>,
    estimate: &E,
    selective: &A,
) -> (r: OperationResult<SearchAlgorithm>)
    requires
        forall|f: &Filter| #[trigger] estimate.requires((f,)),
        forall|part: usize, whole: usize, limit: Option<u64>| #[trigger]
            selective.requires((part, whole, limit)),
    ensures
        algorithm_chosen(
            *config,
            available_vector_count,
            filter,
            params,
            estimate,
            selective,
            r,
        ),
{
    let max_selectivity: Option<u64> = match params {
        Some(params) => match params.acorn {
            Some(acorn) => if acorn.enable {
                acorn.max_selectivity
            } else {
                return Ok(SearchAlgorithm::Hnsw);
            },
            None => {
                return Ok(SearchAlgorithm::Hnsw);
            },
        },
        None => {
            return Ok(SearchAlgorithm::Hnsw);
        },
    };
    let filter = match filter {
        Some(filter) => filter,
        None => {
            return Ok(SearchAlgorithm::Hnsw);
        },
    };
    if config.m0 == 0 {
        return Ok(SearchAlgorithm::Hnsw);
    }
    let small: bool = if available_vector_count == 0 {
        selective(1, 1, max_selectivity)
    } else {
        match estimate(filter) {
            Ok(cardinality) => {
                proof {
                    let estimated: OperationResult<CardinalityEstimation> = Ok(cardinality);
                    assert(estimate.ensures((filter,), estimated));
                }
                selective(cardinality.exp, available_vector_count, max_selectivity)
            },
            Err(error) => {
                proof {
                    let estimated: OperationResult<CardinalityEstimation> = Err(error);
                    assert(estimate.ensures((filter,), estimated));
                }
                return Err(error);
            },
        }
    };
    if small {
        Ok(SearchAlgorithm::Acorn)
    } else {
        Ok(SearchAlgorithm::Hnsw)
    }
}

/// The points that a filter selects, from the cache or newly collected.
pub open spec fn candidates_found<
    C: Fn(&Filter, CardinalityEstimation) -> OperationResult<Vec<PointOffsetType>>,
>(
    collect: &C,
    filter: &Filter,
    cardinality: CardinalityEstimation,
    payload_epoch: u64,
    before: FilterCacheView,
    after: FilterCacheView,
    hit: bool,
    r: OperationResult<Seq<PointOffsetType>>,
) -> bool {
    let base = before.at_epoch(payload_epoch);
    &&& hit == base.entries.contains_key(filter.model())
    &&& if hit {
        &&& r == Ok::<Seq<PointOffsetType>, OperationError>(base.entries[filter.model()])
        &&& after == base
    } else {
        exists|collected: OperationResult<Vec<PointOffsetType>>|
            {
                &&& #[trigger] collect.ensures((filter, cardinality), collected)
                &&& match collected {
                    Ok(points) => {
                        &&& r == Ok::<Seq<PointOffsetType>, OperationError>(points@)
                        &&& after == base.offered(filter.model(), points@)
                    },
                    Err(error) => {
                        &&& r == Err::<Seq<PointOffsetType>, OperationError>(error)
                        &&& after == base
                    },
                }
            }
    }
}

/// The points of a result.
pub open spec fn points_of(
    r: OperationResult<(Arc<Vec<PointOffsetType>>, bool)>,
) -> OperationResult<Seq<PointOffsetType>> {
    match r {
        Ok((points, _)) => Ok(points@),
        Err(error) => Err(error),
    }
}

/// Take the points that a filter selects from the cache, or collect them and offer them to it.
pub(crate) fn cached_candidates<
    C: Fn(&Filter, CardinalityEstimation) -> OperationResult<Vec<PointOffsetType>>,
>(
    filter_cache: &mut GpuFilterCandidateCache,
    collect: &C,
    filter: &Filter,
    cardinality: CardinalityEstimation,
    payload_epoch: u64,
) -> (r: OperationResult<(Arc<Vec<PointOffsetType>>, bool)>)
    requires
        old(filter_cache).wf(),
        forall|f: &Filter, c: CardinalityEstimation| #[trigger] collect.requires((f, c)),
    ensures
        final(filter_cache).wf(),
        candidates_found(
            collect,
            filter,
            cardinality,
            payload_epoch,
            old(filter_cache)@,
            final(filter_cache)@,
            old(filter_cache)@.at_epoch(payload_epoch).entries.contains_key(filter.model()),
            points_of(r),
        ),
        r matches Ok((_, hit)) ==> hit == old(filter_cache)@.at_epoch(
            payload_epoch,
        ).entries.contains_key(filter.model()),
{
    match filter_cache.get(filter, payload_epoch) {
        Some(points) => Ok((points, true)),
        None => match collect(filter, cardinality) {
            Ok(points) => {
                proof {
                    let collected: OperationResult<Vec<PointOffsetType>> = Ok(points);
                    assert(collect.ensures((filter, cardinality), collected));
                }
                let shared = Arc::new(points);
                filter_cache.insert(filter.copied(), shared.clone(), payload_epoch);
                Ok((shared, false))
            },
            Err(error) => {
                proof {
                    let collected: OperationResult<Vec<PointOffsetType>> = Err(error);
                    assert(collect.ensures((filter, cardinality), collected));
                }
                Err(error)
            },
        },
    }
}

/// A filtered graph search may use the device: the filter selects neither too few nor too many
/// points, its selection can be kept, and the device knows which points are deleted.
pub open spec fn gpu_applies(
    gpu: GpuSearchConfig,
    state: GraphSearchState,
    filter: FilterView,
    cardinality: CardinalityEstimation,
    deletions: QueryDeletions,
) -> bool {
    &&& gpu.enabled
    &&& gpu.router_enabled
    &&& gpu.graph_min_candidates <= cardinality.max <= gpu.max_candidates
    &&& !state.payload_appendable
    &&& payload_only(filter)
    &&& (state.deleted_point_count == 0 && state.deleted_vector_count == 0) || snapshot_of(
        deletions,
        state.total_vector_count,
    ) is Some
}

/// What the device finds. A failure counts as no answer.
pub open spec fn device_searched<
    N: Fn(&Filter) -> OperationResult<Option<ScoredPointOffset>>,
    X: Fn(
        &Vec<VectorElementType>,
        PointOffsetType,
        Arc<Vec<PointOffsetType>>,
        Option<GpuVisibilitySnapshot>,
        usize,
        usize,
    ) -> MaybeResult,
>(
    entry: &N,
    run: &X,
    filter: &Filter,
    query: &Vec<VectorElementType>,
    candidates: Seq<PointOffsetType>,
    snapshot: Option<GpuVisibilitySnapshot>,
    oversampled_top: usize,
    ef: usize,
    r: Option<Vec<ScoredPointOffset>>,
) -> bool {
    exists|start: OperationResult<Option<ScoredPointOffset>>|
        {
            &&& #[trigger] entry.ensures((filter,), start)
            &&& match start {
                Err(_) => r is None,
                Ok(None) => r matches Some(points) && points@.len() == 0,
                Ok(Some(start)) => exists|list: Arc<Vec<PointOffsetType>>, reply: MaybeResult|
                    {
                        &&& #[trigger] run.ensures(
                            (query, start.idx, list, snapshot, oversampled_top, ef),
                            reply,
                        )
                        &&& list@ == candidates
                        &&& match reply {
                            Ok(points) => r == points,
                            Err(_) => r is None,
                        }
                    },
            }
        }
}

/// What became of the attempt to search on the device.
pub open spec fn gpu_attempted<
    E: Fn(&Filter) -> OperationResult<CardinalityEstimation>,
    C: Fn(&Filter, CardinalityEstimation) -> OperationResult<Vec<PointOffsetType>>,
    N: Fn(&Filter) -> OperationResult<Option<ScoredPointOffset>>,
    X: Fn(
        &Vec<VectorElementType>,
        PointOffsetType,
        Arc<Vec<PointOffsetType>>,
        Option<GpuVisibilitySnapshot>,
        usize,
        usize,
    ) -> MaybeResult,
>(
    gpu: GpuSearchConfig,
    state: GraphSearchState,
    filter: &Filter,
    query: &Vec<VectorElementType>,
    ef: usize,
    deletions: QueryDeletions,
    estimate: &E,
    collect: &C,
    entry: &N,
    run: &X,
    before: FilterCacheView,
    after: FilterCacheView,
    r: MaybeResult,
) -> bool {
    exists|estimated: OperationResult<CardinalityEstimation>|
        {
            &&& #[trigger] estimate.ensures((filter,), estimated)
            &&& match estimated {
                Err(error) => {
                    &&& r == Err::<Option<Vec<ScoredPointOffset>>, OperationError>(error)
                    &&& after == before
                },
                Ok(cardinality) => if !gpu_applies(
                    gpu,
                    state,
                    filter.model(),
                    cardinality,
                    deletions,
                ) {
                    &&& r == Ok::<Option<Vec<ScoredPointOffset>>, OperationError>(None)
                    &&& after == before
                } else {
                    exists|hit: bool, candidates: OperationResult<Seq<PointOffsetType>>|
                        {
                            &&& #[trigger] candidates_found(
                                collect,
                                filter,
                                cardinality,
                                state.payload_epoch,
                                before,
                                after,
                                hit,
                                candidates,
                            )
                            &&& match candidates {
                                Err(error) => r == Err::<
                                    Option<Vec<ScoredPointOffset>>,
                                    OperationError,
                                >(error),
                                Ok(candidates) => r matches Ok(found) && device_searched(
                                    entry,
                                    run,
                                    filter,
                                    query,
                                    candidates,
                                    snapshot_of(deletions, state.total_vector_count),
                                    state.oversampled_top,
                                    ef,
                                    found,
                                ),
                            }
                        }
                },
            }
        }
}

/// Try to search on the device.
fn attempt_gpu<
    E: Fn(&Filter) -> OperationResult<CardinalityEstimation>,
    C: Fn(&Filter, CardinalityEstimation) -> OperationResult<Vec<PointOffsetType>>,
    N: Fn(&Filter) -> OperationResult<Option<ScoredPointOffset>>,
    X: Fn(
        &Vec<VectorElementType>,
        PointOffsetType,
        Arc<Vec<PointOffsetType>>,
        Option<GpuVisibilitySnapshot>,
        usize,
        usize,
    ) -> MaybeResult,
>(
    gpu: &GpuSearchConfig,
    state: &GraphSearchState,
    filter_cache: &mut GpuFilterCandidateCache,
    filter: &Filter,
    query: &Vec<VectorElementType>,
    ef: usize,
    deletions: QueryDeletions,
    estimate: &E,
    collect: &C,
    entry: &N,
    run: &X,
) -> (r: MaybeResult)
    requires
        old(filter_cache).wf(),
        forall|f: &Filter| #[trigger] estimate.requires((f,)),
        forall|f: &Filter, c: CardinalityEstimation| #[trigger] collect.requires((f, c)),
        forall|f: &Filter| #[trigger] entry.requires((f,)),
        forall|
            point_id: PointOffsetType,
            list: Arc<Vec<PointOffsetType>>,
            snapshot: Option<GpuVisibilitySnapshot>,
            top: usize,
            keep: usize,
        | #[trigger]
            run.requires((query, point_id, list, snapshot, top, keep)),
    ensures
        final(filter_cache).wf(),
        gpu_attempted(
            *gpu,
            *state,
            filter,
            query,
            ef,
            deletions,
            estimate,
            collect,
            entry,
            run,
            old(filter_cache)@,
            final(filter_cache)@,
            r,
        ),
{
    let ghost before = filter_cache@;
    let cardinality = match estimate(filter) {
        Ok(cardinality) => cardinality,
        Err(error) => {
            proof {
                let estimated: OperationResult<CardinalityEstimation> = Err(error);
                assert(estimate.ensures((filter,), estimated));
            }
            return Err(error);
        },
    };
    proof {
        let estimated: OperationResult<CardinalityEstimation> = Ok(cardinality);
        assert(estimate.ensures((filter,), estimated));
    }
    let cacheable: bool = gpu.enabled && gpu.router_enabled && cardinality.max
        >= gpu.graph_min_candidates && cardinality.max <= gpu.max_candidates
        && !state.payload_appendable && gpu_filter_cacheable(filter);
    let snapshot = visibility_snapshot(deletions, state.total_vector_count);
    let static_deletions: bool = state.deleted_point_count != 0 || state.deleted_vector_count != 0;
    if !cacheable || (static_deletions && snapshot.is_none()) {
        return Ok(None);
    }
    let found = cached_candidates(
        filter_cache,
        collect,
        filter,
        cardinality,
        state.payload_epoch,
    );
    proof {
        let hit = before.at_epoch(state.payload_epoch).entries.contains_key(filter.model());
        assert(candidates_found(
            collect,
            filter,
            cardinality,
            state.payload_epoch,
            before,
            filter_cache@,
            hit,
            points_of(found),
        ));
    }
    let candidates = match found {
        Ok((candidates, _)) => candidates,
        Err(error) => {
            return Err(error);
        },
    };
    let start = match entry(filter) {
        Ok(Some(start)) => {
            proof {
                let outcome: OperationResult<Option<ScoredPointOffset>> = Ok(Some(start));
                assert(entry.ensures((filter,), outcome));
            }
            start
        },
        Ok(None) => {
            proof {
                let outcome: OperationResult<Option<ScoredPointOffset>> = Ok(None);
                assert(entry.ensures((filter,), outcome));
            }
            return Ok(Some(Vec::new()));
        },
        Err(error) => {
            proof {
                let outcome: OperationResult<Option<ScoredPointOffset>> = Err(error);
                assert(entry.ensures((filter,), outcome));
            }
            return Ok(None);
        },
    };
    let ghost list = candidates;
    let reply = run(query, start.idx, candidates, snapshot, state.oversampled_top, ef);
    proof {
        assert(run.ensures(
            (query, start.idx, list, snapshot, state.oversampled_top, ef),
            reply,
        ));
    }
    match reply {
        Ok(points) => Ok(points),
        Err(_) => Ok(None),
    }
}

/// A search over links and vectors, with the results scored again.
pub open spec fn regular_searched<
    G: Fn(usize, usize, SearchAlgorithm, Option<&[PointOffsetType]>) -> QueryResult,
    P: Fn(Vec<ScoredPointOffset>, usize) -> QueryResult,
>(
    regular: &G,
    postprocess: &P,
    state: GraphSearchState,
    ef: usize,
    algorithm: SearchAlgorithm,
    custom_entry_points: Option<&[PointOffsetType]>,
    top: usize,
    r: QueryResult,
) -> bool {
    exists|found: QueryResult|
        {
            &&& #[trigger] regular.ensures(
                (state.oversampled_top, ef, algorithm, custom_entry_points),
                found,
            )
            &&& match found {
                Ok(points) => postprocess.ensures((points, top), r),
                Err(error) => r == Err::<Vec<ScoredPointOffset>, OperationError>(error),
            }
        }
}

/// A search without the device. The vectors beside the links are used when they can be.
pub open spec fn cpu_searched<
    V: Fn(usize, usize, Option<&[PointOffsetType]>) -> MaybeResult,
    G: Fn(usize, usize, SearchAlgorithm, Option<&[PointOffsetType]>) -> QueryResult,
    P: Fn(Vec<ScoredPointOffset>, usize) -> QueryResult,
>(
    with_vectors: &V,
    regular: &G,
    postprocess: &P,
    state: GraphSearchState,
    ef: usize,
    algorithm: SearchAlgorithm,
    custom_entry_points: Option<&[PointOffsetType]>,
    top: usize,
    r: QueryResult,
) -> bool {
    if algorithm == SearchAlgorithm::Hnsw && state.has_inline_vectors && state.quantized_search {
        exists|found: MaybeResult|
            {
                &&& #[trigger] with_vectors.ensures(
                    (top, larger(ef, state.oversampled_top), custom_entry_points),
                    found,
                )
                &&& match found {
                    Err(error) => r == Err::<Vec<ScoredPointOffset>, OperationError>(error),
                    Ok(Some(points)) => r == Ok::<Vec<ScoredPointOffset>, OperationError>(points),
                    Ok(None) => regular_searched(
                        regular,
                        postprocess,
                        state,
                        ef,
                        algorithm,
                        custom_entry_points,
                        top,
                        r,
                    ),
                }
            }
    } else {
        regular_searched(
            regular,
            postprocess,
            state,
            ef,
            algorithm,
            custom_entry_points,
            top,
            r,
        )
    }
}

/// The larger of two sizes.
pub open spec fn larger(a: usize, b: usize) -> usize {
    if a >= b {
        a
    } else {
        b
    }
}

/// Search without the device.
fn search_cpu<
    V: Fn(usize, usize, Option<&[PointOffsetType]>) -> MaybeResult,
    G: Fn(usize, usize, SearchAlgorithm, Option<&[PointOffsetType]>) -> QueryResult,
    P: Fn(Vec<ScoredPointOffset>, usize) -> QueryResult,
>(
    with_vectors: &V,
    regular: &G,
    postprocess: &P,
    state: &GraphSearchState,
    ef: usize,
    algorithm: SearchAlgorithm,
    custom_entry_points: Option<&[PointOffsetType]>,
    top: usize,
) -> (r: QueryResult)
    requires
        forall|count: usize, keep: usize| #[trigger]
            with_vectors.requires((count, keep, custom_entry_points)),
        forall|count: usize, keep: usize, a: SearchAlgorithm| #[trigger]
            regular.requires((count, keep, a, custom_entry_points)),
        forall|points: Vec<ScoredPointOffset>| #[trigger] postprocess.requires((points, top)),
    ensures
        cpu_searched(
            with_vectors,
            regular,
            postprocess,
            *state,
            ef,
            algorithm,
            custom_entry_points,
            top,
            r,
        ),
{
    if algorithm == SearchAlgorithm::Hnsw && state.has_inline_vectors && state.quantized_search {
        let found = with_vectors(
            top,
            max_usize(ef, state.oversampled_top),
            custom_entry_points,
        );
        proof {
            assert(with_vectors.ensures(
                (top, larger(ef, state.oversampled_top), custom_entry_points),
                found,
            ));
        }
        match found {
            Ok(Some(points)) => {
                return Ok(points);
            },
            Ok(None) => {},
            Err(error) => {
                return Err(error);
            },
        }
    }
    let found = regular(state.oversampled_top, ef, algorithm, custom_entry_points);
    proof {
        assert(regular.ensures(
            (state.oversampled_top, ef, algorithm, custom_entry_points),
            found,
        ));
    }
    match found {
        Ok(points) => postprocess(points, top),
        Err(error) => Err(error),
    }
}

/// The query that a device can search for: near a dense vector, through a filter, with the first
/// algorithm and from the usual entry points.
pub open spec fn gpu_query<'a>(
    vector: &'a QueryVector,
    filter: Option<&'a Filter>,
    algorithm: SearchAlgorithm,
    custom_entry_points: Option<&[PointOffsetType]>,
) -> Option<(&'a Filter, &'a Vec<VectorElementType>)> {
    if algorithm == SearchAlgorithm::Hnsw && custom_entry_points is None {
        match (filter, vector) {
            (Some(filter), QueryVector::Nearest(VectorInternal::Dense(query))) => Some(
                (filter, query),
            ),
            _ => None,
        }
    } else {
        None
    }
}

/// What a search gives that tries the device first.
pub open spec fn attempted_first<
    E: Fn(&Filter) -> OperationResult<CardinalityEstimation>,
    C: Fn(&Filter, CardinalityEstimation) -> OperationResult<Vec<PointOffsetType>>,
    N: Fn(&Filter) -> OperationResult<Option<ScoredPointOffset>>,
    X: Fn(
        &Vec<VectorElementType>,
        PointOffsetType,
        Arc<Vec<PointOffsetType>>,
        Option<GpuVisibilitySnapshot>,
        usize,
        usize,
    ) -> MaybeResult,
    V: Fn(usize, usize, Option<&[PointOffsetType]>) -> MaybeResult,
    G: Fn(usize, usize, SearchAlgorithm, Option<&[PointOffsetType]>) -> QueryResult,
    P: Fn(Vec<ScoredPointOffset>, usize) -> QueryResult,
>(
    gpu: GpuSearchConfig,
    state: GraphSearchState,
    filter: &Filter,
    query: &Vec<VectorElementType>,
    top: usize,
    ef: usize,
    deletions: QueryDeletions,
    estimate: &E,
    collect: &C,
    entry: &N,
    run: &X,
    with_vectors: &V,
    regular: &G,
    postprocess: &P,
    before: FilterCacheView,
    after: FilterCacheView,
    r: QueryResult,
) -> bool {
    exists|attempt: MaybeResult|
        {
            &&& #[trigger] gpu_attempted(
                gpu,
                state,
                filter,
                query,
                ef,
                deletions,
                estimate,
                collect,
                entry,
                run,
                before,
                after,
                attempt,
            )
            &&& match attempt {
                Err(error) => r == Err::<Vec<ScoredPointOffset>, OperationError>(error),
                Ok(Some(points)) => postprocess.ensures((points, top), r),
                Ok(None) => cpu_searched(
                    with_vectors,
                    regular,
                    postprocess,
                    state,
                    ef,
                    SearchAlgorithm::Hnsw,
                    None,
                    top,
                    r,
                ),
            }
        }
}

/// What a search with an algorithm gives, and what it does to the cache of selections.
pub open spec fn searched_with<
    E: Fn(&Filter) -> OperationResult<CardinalityEstimation>,
    C: Fn(&Filter, CardinalityEstimation) -> OperationResult<Vec<PointOffsetType>>,
    N: Fn(&Filter) -> OperationResult<Option<ScoredPointOffset>>,
    X: Fn(
        &Vec<VectorElementType>,
        PointOffsetType,
        Arc<Vec<PointOffsetType>>,
        Option<GpuVisibilitySnapshot>,
        usize,
        usize,
    ) -> MaybeResult,
    V: Fn(usize, usize, Option<&[PointOffsetType]>) -> MaybeResult,
    G: Fn(usize, usize, SearchAlgorithm, Option<&[PointOffsetType]>) -> QueryResult,
    P: Fn(Vec<ScoredPointOffset>, usize) -> QueryResult,
>(
    gpu: GpuSearchConfig,
    state: GraphSearchState,
    vector: &QueryVector,
    filter: Option<&Filter>,
    top: usize,
    ef: usize,
    algorithm: SearchAlgorithm,
    custom_entry_points: Option<&[PointOffsetType]>,
    deletions: QueryDeletions,
    estimate: &E,
    collect: &C,
    entry: &N,
    run: &X,
    with_vectors: &V,
    regular: &G,
    postprocess: &P,
    before: FilterCacheView,
    after: FilterCacheView,
    r: QueryResult,
) -> bool {
    match gpu_query(vector, filter, algorithm, custom_entry_points) {
        None => {
            &&& cpu_searched(
                with_vectors,
                regular,
                postprocess,
                state,
                ef,
                algorithm,
                custom_entry_points,
                top,
                r,
            )
            &&& after == before
        },
        Some((filter, query)) => attempted_first(
            gpu,
            state,
            filter,
            query,
            top,
            ef,
            deletions,
            estimate,
            collect,
            entry,
            run,
            with_vectors,
            regular,
            postprocess,
            before,
            after,
            r,
        ),
    }
}

/// What a search of the graph gives, and what it does to the cache of selections.
pub open spec fn graph_searched<
    E: Fn(&Filter) -> OperationResult<CardinalityEstimation>,
    A: Fn(usize, usize, Option<u64>) -> bool,
    C: Fn(&Filter, CardinalityEstimation) -> OperationResult<Vec<PointOffsetType>>,
    N: Fn(&Filter) -> OperationResult<Option<ScoredPointOffset>>,
    X: Fn(
        &Vec<VectorElementType>,
        PointOffsetType,
        Arc<Vec<PointOffsetType>>,
        Option<GpuVisibilitySnapshot>,
        usize,
        usize,
    ) -> MaybeResult,
    V: Fn(usize, usize, Option<&[PointOffsetType]>) -> MaybeResult,
    G: Fn(usize, usize, SearchAlgorithm, Option<&[PointOffsetType]>) -> QueryResult,
    P: Fn(Vec<ScoredPointOffset>, usize) -> QueryResult,
>(
    config: HnswGraphConfig,
    gpu: GpuSearchConfig,
    state: GraphSearchState,
    vector: &QueryVector,
    filter: Option<&Filter>,
    top: usize,
    params: Option<SearchParams>,
    custom_entry_points: Option<&[PointOffsetType]>,
    deletions: QueryDeletions,
    estimate: &E,
    selective: &A,
    collect: &C,
    entry: &N,
    run: &X,
    with_vectors: &V,
    regular: &G,
    postprocess: &P,
    before: FilterCacheView,
    after: FilterCacheView,
    r: QueryResult,
) -> bool {
    exists|algorithm: OperationResult<SearchAlgorithm>|
        {
            &&& #[trigger] algorithm_chosen(
                config,
                state.available_vector_count,
                filter,
                params,
                estimate,
                selective,
                algorithm,
            )
            &&& match algorithm {
                Err(error) => {
                    &&& r == Err::<Vec<ScoredPointOffset>, OperationError>(error)
                    &&& after == before
                },
                Ok(algorithm) => searched_with(
                    gpu,
                    state,
                    vector,
                    filter,
                    top,
                    ef_of(config, params),
                    algorithm,
                    custom_entry_points,
                    deletions,
                    estimate,
                    collect,
                    entry,
                    run,
                    with_vectors,
                    regular,
                    postprocess,
                    before,
                    after,
                    r,
                ),
            }
        }
}

/// Search the graph for one query.
///
/// `estimate` bounds the number of points that a filter selects, `selective` tells whether a share
/// of the points is small, `collect` gives the points that a filter selects, `entry` finds where a
/// search of the lowest layer starts, `run` searches on the device, `with_vectors` searches with
/// the vectors beside the links, `regular` searches the graph, and `postprocess` scores results
/// again. A failure on the device leads to a search without it.
pub fn search_with_graph<
    E: Fn(&Filter) -> OperationResult<CardinalityEstimation>,
    A: Fn(usize, usize, Option<u64>) -> bool,
    C: Fn(&Filter, CardinalityEstimation) -> OperationResult<Vec<PointOffsetType>>,
    N: Fn(&Filter) -> OperationResult<Option<ScoredPointOffset>>,
    X: Fn(
        &Vec<VectorElementType>,
        PointOffsetType,
        Arc<Vec<PointOffsetType>>,
        Option<GpuVisibilitySnapshot>,
        usize,
        usize,
    ) -> MaybeResult,
    V: Fn(usize, usize, Option<&[PointOffsetType]>) -> MaybeResult,
    G: Fn(usize, usize, SearchAlgorithm, Option<&[PointOffsetType]>) -> QueryResult,
    P: Fn(Vec<ScoredPointOffset>, usize) -> QueryResult,
>(
    config: &HnswGraphConfig,
    gpu: &GpuSearchConfig,
    state: &GraphSearchState,
    filter_cache: &mut GpuFilterCandidateCache,
    vector: &QueryVector,
    filter: Option<&Filter>,
    top: usize,
    params: Option<SearchParams>,
    custom_entry_points: Option<&[PointOffsetType]>,
    deletions: QueryDeletions,
    estimate: &E,
    selective: &A,
    collect: &C,
    entry: &N,
    run: &X,
    with_vectors: &V,
    regular: &G,
    postprocess: &P,
) -> (r: QueryResult)
    requires
        old(filter_cache).wf(),
        forall|f: &Filter| #[trigger] estimate.requires((f,)),
        forall|part: usize, whole: usize, limit: Option<u64>| #[trigger]
            selective.requires((part, whole, limit)),
        forall|f: &Filter, c: CardinalityEstimation| #[trigger] collect.requires((f, c)),
        forall|f: &Filter| #[trigger] entry.requires((f,)),
        forall|
            query: &Vec<VectorElementType>,
            point_id: PointOffsetType,
            list: Arc<Vec<PointOffsetType>>,
            snapshot: Option<GpuVisibilitySnapshot>,
            count: usize,
            keep: usize,
        | #[trigger]
            run.requires((query, point_id, list, snapshot, count, keep)),
        forall|count: usize, keep: usize| #[trigger]
            with_vectors.requires((count, keep, custom_entry_points)),
        forall|count: usize, keep: usize, a: SearchAlgorithm| #[trigger]
            regular.requires((count, keep, a, custom_entry_points)),
        forall|points: Vec<ScoredPointOffset>| #[trigger] postprocess.requires((points, top)),
    ensures
        final(filter_cache).wf(),
        graph_searched(
            *config,
            *gpu,
            *state,
            vector,
            filter,
            top,
            params,
            custom_entry_points,
            deletions,
            estimate,
            selective,
            collect,
            entry,
            run,
            with_vectors,
            regular,
            postprocess,
            old(filter_cache)@,
            final(filter_cache)@,
            r,
        ),
{
    let ef: usize = match params {
        Some(params) => match params.hnsw_ef {
            Some(ef) => ef,
            None => config.ef,
        },
        None => config.ef,
    };
    let chosen = choose_algorithm(
        config,
        state.available_vector_count,
        filter,
        params,
        estimate,
        selective,
    );
    let algorithm = match chosen {
        Ok(algorithm) => algorithm,
        Err(error) => {
            return Err(error);
        },
    };
    proof {
        assert(algorithm_chosen(
            *config,
            state.available_vector_count,
            filter,
            params,
            estimate,
            selective,
            chosen,
        ));
    }
    let ghost before = filter_cache@;
    if algorithm == SearchAlgorithm::Hnsw && custom_entry_points.is_none() {
        match (filter, vector) {
            (Some(selected), QueryVector::Nearest(VectorInternal::Dense(query))) => {
                let attempt = attempt_gpu(
                    gpu,
                    state,
                    filter_cache,
                    selected,
                    query,
                    ef,
                    deletions,
                    estimate,
                    collect,
                    entry,
                    run,
                );
                let ghost attempted = attempt;
                proof {
                    assert(gpu_query(vector, filter, algorithm, custom_entry_points) == Some(
                        (selected, query),
                    ));
                }
                match attempt {
                    Ok(Some(points)) => {
                        let r = postprocess(points, top);
                        proof {
                            assert(attempted == Ok::<
                                Option<Vec<ScoredPointOffset>>,
                                OperationError,
                            >(Some(points)));
                            assert(attempted_first(
                                *gpu,
                                *state,
                                selected,
                                query,
                                top,
                                ef,
                                deletions,
                                estimate,
                                collect,
                                entry,
                                run,
                                with_vectors,
                                regular,
                                postprocess,
                                before,
                                filter_cache@,
                                r,
                            ));
                            assert(searched_with(
                                *gpu,
                                *state,
                                vector,
                                filter,
                                top,
                                ef,
                                algorithm,
                                custom_entry_points,
                                deletions,
                                estimate,
                                collect,
                                entry,
                                run,
                                with_vectors,
                                regular,
                                postprocess,
                                before,
                                filter_cache@,
                                r,
                            ));
                        }
                        return r;
                    },
                    Ok(None) => {
                        let r = search_cpu(
                            with_vectors,
                            regular,
                            postprocess,
                            state,
                            ef,
                            algorithm,
                            custom_entry_points,
                            top,
                        );
                        proof {
                            assert(attempted_first(
                                *gpu,
                                *state,
                                selected,
                                query,
                                top,
                                ef,
                                deletions,
                                estimate,
                                collect,
                                entry,
                                run,
                                with_vectors,
                                regular,
                                postprocess,
                                before,
                                filter_cache@,
                                r,
                            ));
                            assert(searched_with(
                                *gpu,
                                *state,
                                vector,
                                filter,
                                top,
                                ef,
                                algorithm,
                                custom_entry_points,
                                deletions,
                                estimate,
                                collect,
                                entry,
                                run,
                                with_vectors,
                                regular,
                                postprocess,
                                before,
                                filter_cache@,
                                r,
                            ));
                        }
                        return r;
                    },
                    Err(error) => {
                        let r = Err(error);
                        proof {
                            assert(attempted_first(
                                *gpu,
                                *state,
                                selected,
                                query,
                                top,
                                ef,
                                deletions,
                                estimate,
                                collect,
                                entry,
                                run,
                                with_vectors,
                                regular,
                                postprocess,
                                before,
                                filter_cache@,
                                r,
                            ));
                            assert(searched_with(
                                *gpu,
                                *state,
                                vector,
                                filter,
                                top,
                                ef,
                                algorithm,
                                custom_entry_points,
                                deletions,
                                estimate,
                                collect,
                                entry,
                                run,
                                with_vectors,
                                regular,
                                postprocess,
                                before,
                                filter_cache@,
                                r,
                            ));
                        }
                        return r;
                    },
                }
            },
            _ => {},
        }
    }
    let r = search_cpu(
        with_vectors,
        regular,
        postprocess,
        state,
        ef,
        algorithm,
        custom_entry_points,
        top,
    );
    proof {
        assert(gpu_query(vector, filter, algorithm, custom_entry_points) is None);
        assert(searched_with(
            *gpu,
            *state,
            vector,
            filter,
            top,
            ef,
            algorithm,
            custom_entry_points,
            deletions,
            estimate,
            collect,
            entry,
            run,
            with_vectors,
            regular,
            postprocess,
            before,
            filter_cache@,
            r,
        ));
    }
    r
}

/// Number of entry points that the context of a query gives.
pub const DISCOVERY_ENTRY_POINT_COUNT: usize = 10;

/// The ordinals of scored points.
pub open spec fn ordinals(points: Seq<ScoredPointOffset>) -> Seq<PointOffsetType> {
    points.map_values(|point: ScoredPointOffset| point.idx)
}

/// A search in two stages: the context gives the entry points.
pub open spec fn discovered<
    Q: Fn(&QueryVector, Option<&Filter>, usize, Option<SearchParams>, Option<&[PointOffsetType]>)
        -> QueryResult,
>(
    search: &Q,
    vector: &QueryVector,
    discover: DiscoverQuery,
    filter: Option<&Filter>,
    top: usize,
    params: Option<SearchParams>,
    r: QueryResult,
) -> bool {
    exists|context: QueryVector, first: QueryResult|
        {
            &&& #[trigger] search.ensures(
                (&context, filter, DISCOVERY_ENTRY_POINT_COUNT, params, None),
                first,
            )
            &&& is_context_of(context, discover)
            &&& match first {
                Err(error) => r == Err::<Vec<ScoredPointOffset>, OperationError>(error),
                Ok(points) => exists|entries: &[PointOffsetType]|
                    {
                        &&& #[trigger] search.ensures(
                            (vector, filter, top, params, Some(entries)),
                            r,
                        )
                        &&& entries@ == ordinals(points@)
                    },
            }
        }
}

/// Search for points near a target, in a context. The best points of the context are where the
/// search starts.
pub fn discover_search_with_graph<
    Q: Fn(&QueryVector, Option<&Filter>, usize, Option<SearchParams>, Option<&[PointOffsetType]>)
        -> QueryResult,
>(
    search: &Q,
    vector: &QueryVector,
    discover: &DiscoverQuery,
    filter: Option<&Filter>,
    top: usize,
    params: Option<SearchParams>,
) -> (r: QueryResult)
    requires
        *vector == QueryVector::Discover(*discover),
        forall|v: &QueryVector, count: usize, entries: Option<&[PointOffsetType]>| #[trigger]
            search.requires((v, filter, count, params, entries)),
    ensures
        discovered(search, vector, *discover, filter, top, params, r),
{
    let context = discover.context();
    let first = search(&context, filter, DISCOVERY_ENTRY_POINT_COUNT, params, None);
    proof {
        assert(search.ensures(
            (&context, filter, DISCOVERY_ENTRY_POINT_COUNT, params, None),
            first,
        ));
    }
    let points = match first {
        Ok(points) => points,
        Err(error) => {
            return Err(error);
        },
    };
    let mut entries: Vec<PointOffsetType> = Vec::new();
    let mut i: usize = 0;
    while i < points.len()
        invariant
            i <= points@.len(),
            entries@ == ordinals(points@).take(i as int),
        decreases points@.len() - i,
    {
        entries.push(points[i].idx);
        proof {
            assert(ordinals(points@).take(i + 1) =~= ordinals(points@).take(i as int).push(
                points@[i as int].idx,
            ));
        }
        i = i + 1;
    }
    proof {
        assert(ordinals(points@).take(i as int) =~= ordinals(points@));
    }
    let slice = entries.as_slice();
    let r = search(vector, filter, top, params, Some(slice));
    proof {
        assert(search.ensures((vector, filter, top, params, Some(slice)), r));
    }
    r
}

/// What the search for one query of a batch gives.
pub open spec fn searched_vector<
    Q: Fn(&QueryVector, Option<&Filter>, usize, Option<SearchParams>, Option<&[PointOffsetType]>)
        -> QueryResult,
>(
    search: &Q,
    vector: &QueryVector,
    filter: Option<&Filter>,
    top: usize,
    params: Option<SearchParams>,
    r: QueryResult,
) -> bool {
    match *vector {
        QueryVector::Discover(discover) => discovered(
            search,
            vector,
            discover,
            filter,
            top,
            params,
            r,
        ),
        _ => search.ensures((vector, filter, top, params, None), r),
    }
}

/// The search for one query of a batch can succeed.
pub open spec fn can_search_vector<
    Q: Fn(&QueryVector, Option<&Filter>, usize, Option<SearchParams>, Option<&[PointOffsetType]>)
        -> QueryResult,
>(
    search: &Q,
    vector: &QueryVector,
    filter: Option<&Filter>,
    top: usize,
    params: Option<SearchParams>,
) -> bool {
    exists|points: Vec<ScoredPointOffset>| #[trigger]
        searched_vector(search, vector, filter, top, params, Ok(points))
}

/// What the searches for the queries of a batch give, up to the first error.
pub open spec fn vectors_searched<
    Q: Fn(&QueryVector, Option<&Filter>, usize, Option<SearchParams>, Option<&[PointOffsetType]>)
        -> QueryResult,
>(
    search: &Q,
    vectors: Seq<&QueryVector>,
    filter: Option<&Filter>,
    top: usize,
    params: Option<SearchParams>,
    r: OperationResult<Vec<Vec<ScoredPointOffset>>>,
) -> bool {
    match r {
        Ok(results) => {
            &&& results@.len() == vectors.len()
            &&& forall|i: int|
                0 <= i < vectors.len() ==> searched_vector(
                    search,
                    vectors[i],
                    filter,
                    top,
                    params,
                    Ok(#[trigger] results@[i]),
                )
        },
        Err(error) => exists|i: int|
            {
                &&& 0 <= i < vectors.len()
                &&& searched_vector(
                    search,
                    #[trigger] vectors[i],
                    filter,
                    top,
                    params,
                    Err(error),
                )
                &&& forall|j: int|
                    0 <= j < i ==> can_search_vector(
                        search,
                        #[trigger] vectors[j],
                        filter,
                        top,
                        params,
                    )
            },
    }
}

/// Search the graph for several queries, up to the first error.
pub fn search_vectors_with_graph<
    Q: Fn(&QueryVector, Option<&Filter>, usize, Option<SearchParams>, Option<&[PointOffsetType]>)
        -> QueryResult,
>(
    search: &Q,
    vectors: &[&QueryVector],
    filter: Option<&Filter>,
    top: usize,
    params: Option<SearchParams>,
) -> (r: OperationResult<Vec<Vec<ScoredPointOffset>>>)
    requires
        forall|v: &QueryVector, count: usize, entries: Option<&[PointOffsetType]>| #[trigger]
            search.requires((v, filter, count, params, entries)),
    ensures
        vectors_searched(search, vectors@, filter, top, params, r),
{
    let mut results: Vec<Vec<ScoredPointOffset>> = Vec::new();
    let mut i: usize = 0;
    while i < vectors.len()
        invariant
            i <= vectors@.len(),
            forall|v: &QueryVector, count: usize, entries: Option<&[PointOffsetType]>| #[trigger]
                search.requires((v, filter, count, params, entries)),
            results@.len() == i,
            forall|j: int|
                0 <= j < i ==> searched_vector(
                    search,
                    vectors@[j],
                    filter,
                    top,
                    params,
                    Ok(#[trigger] results@[j]),
                ),
        decreases vectors@.len() - i,
    {
        let vector: &QueryVector = vectors[i];
        let found = match vector {
            QueryVector::Discover(discover) => discover_search_with_graph(
                search,
                vector,
                discover,
                filter,
                top,
                params,
            ),
            _ => search(vector, filter, top, params, None),
        };
        proof {
            assert(searched_vector(search, vectors@[i as int], filter, top, params, found));
        }
        match found {
            Ok(points) => {
                results.push(points);
            },
            Err(error) => {
                proof {
                    assert forall|j: int| 0 <= j < i implies can_search_vector(
                        search,
                        #[trigger] vectors@[j],
                        filter,
                        top,
                        params,
                    ) by {
                        assert(searched_vector(
                            search,
                            vectors@[j],
                            filter,
                            top,
                            params,
                            Ok(results@[j]),
                        ));
                    }
                }
                return Err(error);
            },
        }
        i = i + 1;
    }
    Ok(results)
}

} // verus!
