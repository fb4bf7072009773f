//! Search that scores every candidate.

use std::sync::Arc;

use vstd::prelude::*;

use crate::arith::{ceil_div, lemma_ceil_div, min_int};
use crate::error::{OperationError, OperationResult};
use crate::filter::{Filter, FilterView};
use crate::gpu::exact_context::{
    since, timed, uses_block_topk, GPU_EXACT_SUBMISSION_BATCH_LIMIT,
};
use crate::gpu::exact_search::GpuExactSearchCache;
use crate::gpu::filter_cache::{FilterCacheView, GpuFilterCandidateCache};
use crate::gpu::resident::SharedCandidates;
use crate::gpu::visibility::GpuVisibilitySnapshot;
use crate::hnsw::filters::{gpu_filter_cacheable, payload_only};
use crate::hnsw::graph_search::{
    cached_candidates, candidates_found, points_of, snapshot_of, visibility_snapshot, MaybeResult,
    QueryDeletions, QueryResult,
};
use crate::hnsw::params::{
    exact_wanted, is_exact, CardinalityEstimation, GpuSearchConfig, SearchParams,
};
use crate::hnsw::routing::BatchResult;
use crate::storage::{
    check_deleted_condition, is_live, QueryVector, VectorElementType, VectorInternal,
};
use crate::types::{PointOffsetType, ScoredPointOffset};

verus! {

/// Results of every query, when they were answered.
pub type MaybeBatch = OperationResult<Option<Vec<Vec<ScoredPointOffset>>>>;

/// The results of every query were scored again, up to the first error. Results without a query
/// stay as they are.
pub open spec fn postprocessed<P: Fn(Vec<ScoredPointOffset>, &QueryVector, usize) -> QueryResult>(
    postprocess: &P,
    vectors: Seq<&QueryVector>,
    top: usize,
    found: Seq<Vec<ScoredPointOffset>>,
    r: BatchResult,
) -> bool {
    match r {
        Ok(results) => {
            &&& results@.len() == found.len()
            &&& forall|i: int|
                0 <= i < found.len() ==> rescored(
                    postprocess,
                    vectors,
                    top,
                    found,
                    i,
                    #[trigger] results@[i],
                )
        },
        Err(error) => exists|i: int|
            {
                &&& 0 <= i < found.len()
                &&& i < vectors.len()
                &&& postprocess.ensures((#[trigger] found[i], vectors[i], top), Err(error))
                &&& forall|j: int|
                    0 <= j < i ==> #[trigger] can_rescore(postprocess, vectors, top, found, j)
            },
    }
}

/// The result of one query could be scored again.
pub open spec fn can_rescore<P: Fn(Vec<ScoredPointOffset>, &QueryVector, usize) -> QueryResult>(
    postprocess: &P,
    vectors: Seq<&QueryVector>,
    top: usize,
    found: Seq<Vec<ScoredPointOffset>>,
    i: int,
) -> bool {
    exists|result: Vec<ScoredPointOffset>| #[trigger]
        rescored(postprocess, vectors, top, found, i, result)
}

/// The result of one query after it was scored again.
pub open spec fn rescored<P: Fn(Vec<ScoredPointOffset>, &QueryVector, usize) -> QueryResult>(
    postprocess: &P,
    vectors: Seq<&QueryVector>,
    top: usize,
    found: Seq<Vec<ScoredPointOffset>>,
    i: int,
    result: Vec<ScoredPointOffset>,
) -> bool {
    if i < vectors.len() {
        postprocess.ensures((found[i], vectors[i], top), Ok(result))
    } else {
        result == found[i]
    }
}

/// Score the results of every query again.
fn postprocess_all<P: Fn(Vec<ScoredPointOffset>, &QueryVector, usize) -> QueryResult>(
    postprocess: &P,
    vectors: &[&QueryVector],
    top: usize,
    found: Vec<Vec<ScoredPointOffset>>,
) -> (r: BatchResult)
    requires
        forall|points: Vec<ScoredPointOffset>, v: &QueryVector| #[trigger]
            postprocess.requires((points, v, top)),
    ensures
        postprocessed(postprocess, vectors@, top, found@, r),
{
    let ghost given = found@;
    let count: usize = found.len();
    let mut rest = found;
    let mut results: Vec<Vec<ScoredPointOffset>> = Vec::new();
    let mut i: usize = 0;
    while i < count
        invariant
            i <= count == given.len(),
            given == found@,
            rest@ == given.skip(i as int),
            forall|points: Vec<ScoredPointOffset>, v: &QueryVector| #[trigger]
                postprocess.requires((points, v, top)),
            results@.len() == i,
            forall|j: int|
                0 <= j < i ==> rescored(
                    postprocess,
                    vectors@,
                    top,
                    given,
                    j,
                    #[trigger] results@[j],
                ),
        decreases count - i,
    {
        let points = rest.remove(0);
        proof {
            assert(points == given[i as int]);
            assert(rest@ =~= given.skip(i + 1));
        }
        if i < vectors.len() {
            match postprocess(points, vectors[i], top) {
                Ok(result) => {
                    proof {
                        assert(postprocess.ensures(
                            (given[i as int], vectors@[i as int], top),
                            Ok(result),
                        ));
                        assert(rescored(
                            postprocess,
                            vectors@,
                            top,
                            given,
                            i as int,
                            result,
                        ));
                    }
                    results.push(result);
                },
                Err(error) => {
                    proof {
                        assert(postprocess.ensures(
                            (given[i as int], vectors@[i as int], top),
                            Err(error),
                        ));
                        assert forall|j: int| 0 <= j < i implies #[trigger] can_rescore(
                            postprocess,
                            vectors@,
                            top,
                            given,
                            j,
                        ) by {
                            assert(rescored(postprocess, vectors@, top, given, j, results@[j]));
                        }
                    }
                    return Err(error);
                },
            }
        } else {
            results.push(points);
        }
        i = i + 1;
    }
    Ok(results)
}

/// What scoring points for several queries gives.
pub open spec fn points_searched<
    T: Fn(&[&QueryVector], &[PointOffsetType], usize) -> BatchResult,
    P: Fn(Vec<ScoredPointOffset>, &QueryVector, usize) -> QueryResult,
>(
    peek: &T,
    postprocess: &P,
    vectors: &[&QueryVector],
    points: &[PointOffsetType],
    oversampled_top: usize,
    top: usize,
    r: BatchResult,
) -> bool {
    exists|found: BatchResult|
        {
            &&& #[trigger] peek.ensures((vectors, points, oversampled_top), found)
            &&& match found {
                Ok(lists) => postprocessed(postprocess, vectors@, top, lists@, r),
                Err(error) => r == Err::<Vec<Vec<ScoredPointOffset>>, OperationError>(error),
            }
        }
}

/// What scoring all points of a segment for several queries gives.
pub open spec fn all_points_searched<
    I: Fn() -> Vec<PointOffsetType>,
    T: Fn(&[&QueryVector], &[PointOffsetType], usize) -> BatchResult,
    P: Fn(Vec<ScoredPointOffset>, &QueryVector, usize) -> QueryResult,
>(
    points: &I,
    peek: &T,
    postprocess: &P,
    vectors: &[&QueryVector],
    oversampled_top: usize,
    top: usize,
    r: BatchResult,
) -> bool {
    exists|all: Vec<PointOffsetType>, list: &[PointOffsetType], found: BatchResult|
        {
            &&& #[trigger] points.ensures((), all)
            &&& #[trigger] peek.ensures((vectors, list, oversampled_top), found)
            &&& list@ == all@
            &&& match found {
                Ok(lists) => postprocessed(postprocess, vectors@, top, lists@, r),
                Err(error) => r == Err::<Vec<Vec<ScoredPointOffset>>, OperationError>(error),
            }
        }
}

/// Score points for several queries. `peek` finds the best points, and `postprocess` scores them
/// again.
pub fn search_plain_batched<
    T: Fn(&[&QueryVector], &[PointOffsetType], usize) -> BatchResult,
    P: Fn(Vec<ScoredPointOffset>, &QueryVector, usize) -> QueryResult,
>(
    vectors: &[&QueryVector],
    points: &[PointOffsetType],
    oversampled_top: usize,
    top: usize,
    peek: &T,
    postprocess: &P,
) -> (r: BatchResult)
    requires
        peek.requires((vectors, points, oversampled_top)),
        forall|points: Vec<ScoredPointOffset>, v: &QueryVector| #[trigger]
            postprocess.requires((points, v, top)),
    ensures
        points_searched(peek, postprocess, vectors, points, oversampled_top, top, r),
{
    let found = peek(vectors, points, oversampled_top);
    proof {
        assert(peek.ensures((vectors, points, oversampled_top), found));
    }
    match found {
        Ok(lists) => postprocess_all(postprocess, vectors, top, lists),
        Err(error) => Err(error),
    }
}

/// Score all points of a segment for several queries. `points` lists them.
pub fn search_plain_unfiltered_batched<
    I: Fn() -> Vec<PointOffsetType>,
    T: Fn(&[&QueryVector], &[PointOffsetType], usize) -> BatchResult,
    P: Fn(Vec<ScoredPointOffset>, &QueryVector, usize) -> QueryResult,
>(
    vectors: &[&QueryVector],
    oversampled_top: usize,
    top: usize,
    points: &I,
    peek: &T,
    postprocess: &P,
) -> (r: BatchResult)
    requires
        points.requires(()),
        forall|list: &[PointOffsetType]| #[trigger]
            peek.requires((vectors, list, oversampled_top)),
        forall|points: Vec<ScoredPointOffset>, v: &QueryVector| #[trigger]
            postprocess.requires((points, v, top)),
    ensures
        all_points_searched(points, peek, postprocess, vectors, oversampled_top, top, r),
{
    let all = points();
    let list = all.as_slice();
    proof {
        assert(points.ensures((), all));
    }
    search_plain_batched(vectors, list, oversampled_top, top, peek, postprocess)
}

/// A filter whose selection is worth keeping: it selects many points, and its selection stays the
/// same as long as the payload index does.
pub open spec fn keeps_selection(
    gpu: GpuSearchConfig,
    payload_appendable: bool,
    filter: FilterView,
    cardinality: CardinalityEstimation,
) -> bool {
    &&& gpu.enabled
    &&& cardinality.max >= gpu.min_candidates
    &&& !payload_appendable
    &&& payload_only(filter)
}

/// The points that a filter selects for a plain search, and whether they came from the cache.
pub open spec fn plain_candidates<
    C: Fn(&Filter, CardinalityEstimation) -> OperationResult<Vec<PointOffsetType>>,
>(
    gpu: GpuSearchConfig,
    payload_appendable: bool,
    payload_epoch: u64,
    collect: &C,
    filter: &Filter,
    cardinality: CardinalityEstimation,
    before: FilterCacheView,
    after: FilterCacheView,
    hit: Option<bool>,
    r: OperationResult<Seq<PointOffsetType>>,
) -> bool {
    if keeps_selection(gpu, payload_appendable, filter.model(), cardinality) {
        hit matches Some(hit) && candidates_found(
            collect,
            filter,
            cardinality,
            payload_epoch,
            before,
            after,
            hit,
            r,
        )
    } else {
        &&& hit is None
        &&& after == before
        &&& exists|collected: OperationResult<Vec<PointOffsetType>>|
            {
                &&& #[trigger] collect.ensures((filter, cardinality), collected)
                &&& r == match collected {
                    Ok(points) => Ok::<Seq<PointOffsetType>, OperationError>(points@),
                    Err(error) => Err(error),
                }
            }
    }
}

/// What a plain search gives once its candidates are known. The device is tried first.
pub open spec fn candidates_searched<
    X: Fn(&[&QueryVector], &Arc<Vec<PointOffsetType>>, usize, Option<SearchParams>, u64,
        Option<bool>) -> MaybeBatch,
    T: Fn(&[&QueryVector], &[PointOffsetType], usize, Option<SearchParams>) -> BatchResult,
>(
    exact: &X,
    plain: &T,
    vectors: &[&QueryVector],
    candidates: Seq<PointOffsetType>,
    top: usize,
    params: Option<SearchParams>,
    predicate_ns: u64,
    hit: Option<bool>,
    r: BatchResult,
) -> bool {
    exists|list: &Arc<Vec<PointOffsetType>>, reply: MaybeBatch|
        {
            &&& #[trigger] exact.ensures((vectors, list, top, params, predicate_ns, hit), reply)
            &&& list@ == candidates
            &&& match reply {
                Ok(Some(results)) => r == Ok::<Vec<Vec<ScoredPointOffset>>, OperationError>(
                    results,
                ),
                _ => exists|points: &[PointOffsetType]|
                    {
                        &&& #[trigger] plain.ensures((vectors, points, top, params), r)
                        &&& points@ == candidates
                    },
            }
        }
}

/// What a plain search gives once its candidates are known. The device is told how long it took to
/// find them.
pub open spec fn plain_searched<
    X: Fn(&[&QueryVector], &Arc<Vec<PointOffsetType>>, usize, Option<SearchParams>, u64,
        Option<bool>) -> MaybeBatch,
    T: Fn(&[&QueryVector], &[PointOffsetType], usize, Option<SearchParams>) -> BatchResult,
    K: Fn() -> u64,
>(
    exact: &X,
    plain: &T,
    clock: &K,
    vectors: &[&QueryVector],
    candidates: Seq<PointOffsetType>,
    top: usize,
    params: Option<SearchParams>,
    hit: Option<bool>,
    r: BatchResult,
) -> bool {
    exists|predicate_ns: u64|
        {
            &&& #[trigger] candidates_searched(
                exact,
                plain,
                vectors,
                candidates,
                top,
                params,
                predicate_ns,
                hit,
                r,
            )
            &&& timed(clock, predicate_ns)
        }
}

/// The points that a filter selects for a plain search.
pub open spec fn selection_found<
    C: Fn(&Filter, CardinalityEstimation) -> OperationResult<Vec<PointOffsetType>>,
>(
    gpu: GpuSearchConfig,
    payload_appendable: bool,
    payload_epoch: u64,
    collect: &C,
    filter: &Filter,
    cardinality: CardinalityEstimation,
    before: FilterCacheView,
    after: FilterCacheView,
    r: OperationResult<(Arc<Vec<PointOffsetType>>, Option<bool>)>,
) -> bool {
    match r {
        Ok((points, hit)) => plain_candidates(
            gpu,
            payload_appendable,
            payload_epoch,
            collect,
            filter,
            cardinality,
            before,
            after,
            hit,
            Ok(points@),
        ),
        Err(error) => exists|hit: Option<bool>| #[trigger]
            plain_candidates(
                gpu,
                payload_appendable,
                payload_epoch,
                collect,
                filter,
                cardinality,
                before,
                after,
                hit,
                Err(error),
            ),
    }
}

/// Find the points that a filter selects for a plain search, and tell whether they came from the
/// cache of selections, if that was asked.
///
/// `estimate` bounds the number of points that a filter selects, and `collect` lists them.
pub fn select_candidates<
    E: Fn(&Filter) -> OperationResult<CardinalityEstimation>,
    C: Fn(&Filter, CardinalityEstimation) -> OperationResult<Vec<PointOffsetType>>,
>(
    gpu: &GpuSearchConfig,
    payload_appendable: bool,
    payload_epoch: u64,
    filter_cache: &mut GpuFilterCandidateCache,
    filter: &Filter,
    estimate: &E,
    collect: &C,
) -> (r: OperationResult<(Arc<Vec<PointOffsetType>>, Option<bool>)>)
    requires
        old(filter_cache).wf(),
        forall|f: &Filter| #[trigger] estimate.requires((f,)),
        forall|f: &Filter, c: CardinalityEstimation| #[trigger] collect.requires((f, c)),
    ensures
        final(filter_cache).wf(),
        exists|estimated: OperationResult<CardinalityEstimation>|
            {
                &&& #[trigger] estimate.ensures((filter,), estimated)
                &&& match estimated {
                    Err(error) => {
                        &&& r == Err::<(Arc<Vec<PointOffsetType>>, Option<bool>), OperationError>(
                            error,
                        )
                        &&& final(filter_cache)@ == old(filter_cache)@
                    },
                    Ok(cardinality) => selection_found(
                        *gpu,
                        payload_appendable,
                        payload_epoch,
                        collect,
                        filter,
                        cardinality,
                        old(filter_cache)@,
                        final(filter_cache)@,
                        r,
                    ),
                }
            },
{
    let ghost before = filter_cache@;
    let cardinality = match estimate(filter) {
        Ok(cardinality) => cardinality,
        Err(error) => {
            proof {
                let estimated: OperationResult<CardinalityEstimation> = Err(error);
                assert(estimate.ensures((filter,), estimated));
            }
            return Err(error);
        },
    };
    proof {
        let estimated: OperationResult<CardinalityEstimation> = Ok(cardinality);
        assert(estimate.ensures((filter,), estimated));
    }
    let cacheable: bool = gpu.enabled && cardinality.max >= gpu.min_candidates
        && !payload_appendable && gpu_filter_cacheable(filter);
    if cacheable {
        let ghost is_hit = before.at_epoch(payload_epoch).entries.contains_key(filter.model());
        let cached = cached_candidates(filter_cache, collect, filter, cardinality, payload_epoch);
        proof {
            assert(candidates_found(
                collect,
                filter,
                cardinality,
                payload_epoch,
                before,
                filter_cache@,
                is_hit,
                points_of(cached),
            ));
        }
        match cached {
            Ok((points, hit)) => Ok((points, Some(hit))),
            Err(error) => {
                proof {
                    assert(plain_candidates(
                        *gpu,
                        payload_appendable,
                        payload_epoch,
                        collect,
                        filter,
                        cardinality,
                        before,
                        filter_cache@,
                        Some(is_hit),
                        Err(error),
                    ));
                }
                Err(error)
            },
        }
    } else {
        let collected = collect(filter, cardinality);
        proof {
            assert(collect.ensures((filter, cardinality), collected));
        }
        match collected {
            Ok(points) => Ok((Arc::new(points), None)),
            Err(error) => {
                proof {
                    assert(plain_candidates(
                        *gpu,
                        payload_appendable,
                        payload_epoch,
                        collect,
                        filter,
                        cardinality,
                        before,
                        filter_cache@,
                        None,
                        Err(error),
                    ));
                }
                Err(error)
            },
        }
    }
}

/// Score candidates for several queries. `exact` scores them on the device, and `plain` without it.
/// A failure on the device leads to a search without it.
pub fn search_candidates<
    X: Fn(&[&QueryVector], &Arc<Vec<PointOffsetType>>, usize, Option<SearchParams>, u64,
        Option<bool>) -> MaybeBatch,
    T: Fn(&[&QueryVector], &[PointOffsetType], usize, Option<SearchParams>) -> BatchResult,
>(
    vectors: &[&QueryVector],
    candidates: &Arc<Vec<PointOffsetType>>,
    top: usize,
    params: Option<SearchParams>,
    predicate_ns: u64,
    hit: Option<bool>,
    exact: &X,
    plain: &T,
) -> (r: BatchResult)
    requires
        exact.requires((vectors, candidates, top, params, predicate_ns, hit)),
        forall|points: &[PointOffsetType]| #[trigger]
            plain.requires((vectors, points, top, params)),
    ensures
        candidates_searched(
            exact,
            plain,
            vectors,
            candidates@,
            top,
            params,
            predicate_ns,
            hit,
            r,
        ),
{
    let reply = exact(vectors, candidates, top, params, predicate_ns, hit);
    proof {
        assert(exact.ensures((vectors, candidates, top, params, predicate_ns, hit), reply));
    }
    match reply {
        Ok(Some(results)) => Ok(results),
        _ => {
            let points = candidates.as_slice();
            let r = plain(vectors, points, top, params);
            proof {
                assert(plain.ensures((vectors, points, top, params), r));
            }
            r
        },
    }
}

/// Score the points that a filter selects for several queries.
///
/// `estimate` bounds the number of points that a filter selects, `collect` lists them, `exact`
/// scores them on the device, `plain` scores them without it, and `clock` tells the time in
/// nanoseconds. A failure on the device leads to a search without it.
pub fn search_vectors_plain<
    E: Fn(&Filter) -> OperationResult<CardinalityEstimation>,
    C: Fn(&Filter, CardinalityEstimation) -> OperationResult<Vec<PointOffsetType>>,
    X: Fn(&[&QueryVector], &Arc<Vec<PointOffsetType>>, usize, Option<SearchParams>, u64,
        Option<bool>) -> MaybeBatch,
    T: Fn(&[&QueryVector], &[PointOffsetType], usize, Option<SearchParams>) -> BatchResult,
    K: Fn() -> u64,
>(
    gpu: &GpuSearchConfig,
    payload_appendable: bool,
    payload_epoch: u64,
    filter_cache: &mut GpuFilterCandidateCache,
    vectors: &[&QueryVector],
    filter: &Filter,
    top: usize,
    params: Option<SearchParams>,
    estimate: &E,
    collect: &C,
    exact: &X,
    plain: &T,
    clock: &K,
) -> (r: BatchResult)
    requires
        old(filter_cache).wf(),
        forall|f: &Filter| #[trigger] estimate.requires((f,)),
        forall|f: &Filter, c: CardinalityEstimation| #[trigger] collect.requires((f, c)),
        forall|list: &Arc<Vec<PointOffsetType>>, ns: u64, hit: Option<bool>| #[trigger]
            exact.requires((vectors, list, top, params, ns, hit)),
        forall|points: &[PointOffsetType]| #[trigger]
            plain.requires((vectors, points, top, params)),
        clock.requires(()),
    ensures
        final(filter_cache).wf(),
        filter_searched(
            *gpu,
            payload_appendable,
            payload_epoch,
            estimate,
            collect,
            exact,
            plain,
            clock,
            vectors,
            filter,
            top,
            params,
            old(filter_cache)@,
            final(filter_cache)@,
            r,
        ),
{
    let ghost before = filter_cache@;
    let started: u64 = clock();
    let selected = select_candidates(
        gpu,
        payload_appendable,
        payload_epoch,
        filter_cache,
        filter,
        estimate,
        collect,
    );
    let ghost after = filter_cache@;
    let ghost estimated = choose|estimated: OperationResult<CardinalityEstimation>|
        {
            &&& #[trigger] estimate.ensures((filter,), estimated)
            &&& match estimated {
                Err(error) => {
                    &&& selected == Err::<(Arc<Vec<PointOffsetType>>, Option<bool>), OperationError>(
                        error,
                    )
                    &&& after == before
                },
                Ok(cardinality) => selection_found(
                    *gpu,
                    payload_appendable,
                    payload_epoch,
                    collect,
                    filter,
                    cardinality,
                    before,
                    after,
                    selected,
                ),
            }
        };
    let (candidates, hit) = match selected {
        Ok(found) => found,
        Err(error) => {
            return Err(error);
        },
    };
    let predicate_ns: u64 = since(clock, started);
    let r = search_candidates(
        vectors,
        &candidates,
        top,
        params,
        predicate_ns,
        hit,
        exact,
        plain,
    );
    proof {
        assert(plain_searched(
            exact,
            plain,
            clock,
            vectors,
            candidates@,
            top,
            params,
            hit,
            r,
        ));
    }
    r
}

/// What a plain search gives once the size of the selection is known.
pub open spec fn selection_searched<
    C: Fn(&Filter, CardinalityEstimation) -> OperationResult<Vec<PointOffsetType>>,
    X: Fn(&[&QueryVector], &Arc<Vec<PointOffsetType>>, usize, Option<SearchParams>, u64,
        Option<bool>) -> MaybeBatch,
    T: Fn(&[&QueryVector], &[PointOffsetType], usize, Option<SearchParams>) -> BatchResult,
    K: Fn() -> u64,
>(
    gpu: GpuSearchConfig,
    payload_appendable: bool,
    payload_epoch: u64,
    collect: &C,
    exact: &X,
    plain: &T,
    clock: &K,
    vectors: &[&QueryVector],
    filter: &Filter,
    cardinality: CardinalityEstimation,
    top: usize,
    params: Option<SearchParams>,
    before: FilterCacheView,
    after: FilterCacheView,
    r: BatchResult,
) -> bool {
    exists|hit: Option<bool>, candidates: OperationResult<Seq<PointOffsetType>>|
        {
            &&& #[trigger] plain_candidates(
                gpu,
                payload_appendable,
                payload_epoch,
                collect,
                filter,
                cardinality,
                before,
                after,
                hit,
                candidates,
            )
            &&& match candidates {
                Err(error) => r == Err::<Vec<Vec<ScoredPointOffset>>, OperationError>(error),
                Ok(candidates) => plain_searched(
                    exact,
                    plain,
                    clock,
                    vectors,
                    candidates,
                    top,
                    params,
                    hit,
                    r,
                ),
            }
        }
}

/// What a plain search gives, and what it does to the cache of selections.
pub open spec fn filter_searched<
    E: Fn(&Filter) -> OperationResult<CardinalityEstimation>,
    C: Fn(&Filter, CardinalityEstimation) -> OperationResult<Vec<PointOffsetType>>,
    X: Fn(&[&QueryVector], &Arc<Vec<PointOffsetType>>, usize, Option<SearchParams>, u64,
        Option<bool>) -> MaybeBatch,
    T: Fn(&[&QueryVector], &[PointOffsetType], usize, Option<SearchParams>) -> BatchResult,
    K: Fn() -> u64,
>(
    gpu: GpuSearchConfig,
    payload_appendable: bool,
    payload_epoch: u64,
    estimate: &E,
    collect: &C,
    exact: &X,
    plain: &T,
    clock: &K,
    vectors: &[&QueryVector],
    filter: &Filter,
    top: usize,
    params: Option<SearchParams>,
    before: FilterCacheView,
    after: FilterCacheView,
    r: BatchResult,
) -> bool {
    exists|estimated: OperationResult<CardinalityEstimation>|
        {
            &&& #[trigger] estimate.ensures((filter,), estimated)
            &&& match estimated {
                Err(error) => {
                    &&& r == Err::<Vec<Vec<ScoredPointOffset>>, OperationError>(error)
                    &&& after == before
                },
                Ok(cardinality) => selection_searched(
                    gpu,
                    payload_appendable,
                    payload_epoch,
                    collect,
                    exact,
                    plain,
                    clock,
                    vectors,
                    filter,
                    cardinality,
                    top,
                    params,
                    before,
                    after,
                    r,
                ),
            }
        }
}

/// The points of a list that are not deleted.
pub open spec fn live_points(
    points: Seq<PointOffsetType>,
    deleted_vectors: Seq<bool>,
    deleted_points: Seq<bool>,
) -> Seq<PointOffsetType>
    decreases points.len(),
{
    if points.len() == 0 {
        Seq::empty()
    } else {
        let previous = live_points(points.drop_last(), deleted_vectors, deleted_points);
        if is_live(points.last(), deleted_vectors, deleted_points) {
            previous.push(points.last())
        } else {
            previous
        }
    }
}

/// Keep the points that are not deleted.
fn keep_live(points: &[PointOffsetType], deleted_vectors: &[bool], deleted_points: &[bool]) -> (r:
    Vec<PointOffsetType>)
    ensures
        r@ == live_points(points@, deleted_vectors@, deleted_points@),
{
    let mut r: Vec<PointOffsetType> = Vec::new();
    let mut i: usize = 0;
    while i < points.len()
        invariant
            i <= points@.len(),
            r@ == live_points(points@.take(i as int), deleted_vectors@, deleted_points@),
        decreases points@.len() - i,
    {
        let point_id: PointOffsetType = points[i];
        proof {
            assert(points@.take(i + 1).drop_last() =~= points@.take(i as int));
            assert(points@.take(i + 1).last() == point_id);
        }
        if check_deleted_condition(point_id, deleted_vectors, deleted_points) {
            r.push(point_id);
        }
        i = i + 1;
    }
    proof {
        assert(points@.take(i as int) =~= points@);
    }
    r
}

/// The dense elements of a query for near points.
pub open spec fn dense_of(vector: QueryVector) -> Option<Seq<VectorElementType>> {
    match vector {
        QueryVector::Nearest(VectorInternal::Dense(elements)) => Some(elements@),
        _ => None,
    }
}

/// Every query is for points near a dense vector.
pub open spec fn all_dense(vectors: Seq<&QueryVector>) -> bool {
    forall|i: int| 0 <= i < vectors.len() ==> dense_of(*(#[trigger] vectors[i])) is Some
}

/// The elements of the queries are those of the vectors.
pub open spec fn are_elements(
    queries: Seq<&[VectorElementType]>,
    vectors: Seq<&QueryVector>,
) -> bool {
    &&& queries.len() == vectors.len()
    &&& forall|i: int|
        0 <= i < vectors.len() ==> dense_of(*vectors[i]) == Some((#[trigger] queries[i])@)
}

/// The dense elements of every query.
fn dense_queries<'a>(vectors: &[&'a QueryVector]) -> (r: Option<Vec<&'a [VectorElementType]>>)
    ensures
        match r {
            Some(queries) => all_dense(vectors@) && are_elements(queries@, vectors@),
            None => !all_dense(vectors@),
        },
{
    let mut queries: Vec<&'a [VectorElementType]> = Vec::new();
    let mut i: usize = 0;
    while i < vectors.len()
        invariant
            i <= vectors@.len(),
            queries@.len() == i,
            forall|j: int|
                0 <= j < i ==> dense_of(*vectors@[j]) == Some((#[trigger] queries@[j])@),
        decreases vectors@.len() - i,
    {
        let vector: &'a QueryVector = vectors[i];
        match vector {
            QueryVector::Nearest(VectorInternal::Dense(elements)) => {
                queries.push(elements.as_slice());
            },
            _ => {
                proof {
                    assert(dense_of(*vectors@[i as int]) is None);
                }
                return None;
            },
        }
        i = i + 1;
    }
    proof {
        assert forall|j: int| 0 <= j < vectors@.len() implies dense_of(
            *(#[trigger] vectors@[j]),
        ) is Some by {
            assert(dense_of(*vectors@[j]) == Some(queries@[j]@));
        }
    }
    Some(queries)
}

/// State of a segment as far as exact search on a device depends on it.
#[derive(Clone, Copy, Debug)]
pub struct ExactSearchState<'a> {
    pub total_vector_count: usize,
    pub deleted_point_count: usize,
    pub deleted_vector_count: usize,
    /// Deletion flags of the points of the segment.
    pub deleted_points: &'a [bool],
    /// Deletion flags of the vectors of the segment.
    pub deleted_vectors: &'a [bool],
}

/// The device may use the selected points as they are: they come from the cache of selections, and
/// either nothing is deleted or the device is told what is.
pub open spec fn reuses_candidates(
    state: ExactSearchState,
    deletions: QueryDeletions,
    hit: Option<bool>,
) -> bool {
    &&& hit is Some
    &&& (deletions.deleted_points is None && state.deleted_point_count == 0
        && state.deleted_vector_count == 0) || snapshot_of(deletions, state.total_vector_count)
        is Some
}

/// The points that are scored.
pub open spec fn scored_points(
    state: ExactSearchState,
    deletions: QueryDeletions,
    hit: Option<bool>,
    filtered: Seq<PointOffsetType>,
) -> Seq<PointOffsetType> {
    if reuses_candidates(state, deletions, hit) {
        filtered
    } else {
        live_points(
            filtered,
            state.deleted_vectors@,
            match deletions.deleted_points {
                Some(deleted) => deleted@,
                None => state.deleted_points@,
            },
        )
    }
}

/// Address of a list that only one search uses. No buffer is kept for it.
pub const UNSHARED_ADDRESS: usize = 0;

/// The address of the points that are scored: the selected points keep theirs when the device may
/// use them as they are.
pub open spec fn scored_address(
    state: ExactSearchState,
    deletions: QueryDeletions,
    hit: Option<bool>,
    filtered: usize,
) -> usize {
    if reuses_candidates(state, deletions, hit) {
        filtered
    } else {
        UNSHARED_ADDRESS
    }
}

/// One submission serves this many queries.
pub open spec fn submission_size(candidates: nat, top: nat, reuse: bool) -> nat {
    if uses_block_topk(candidates, top, reuse) {
        GPU_EXACT_SUBMISSION_BATCH_LIMIT as nat
    } else {
        1
    }
}

/// The queries of a submission.
pub open spec fn submission_of(
    vectors: Seq<&QueryVector>,
    size: nat,
    i: int,
) -> Seq<&QueryVector> {
    vectors.subrange(i * size, min_int((i + 1) * size, vectors.len() as int))
}

/// A submission was answered like this.
pub open spec fn answered<
    M: Fn(&[&[VectorElementType]], &SharedCandidates, usize, bool,
        Option<GpuVisibilitySnapshot>) -> MaybeBatch,
>(
    search_batch: &M,
    vectors: Seq<&QueryVector>,
    candidates: Seq<PointOffsetType>,
    address: usize,
    top: usize,
    reuse: bool,
    snapshot: Option<GpuVisibilitySnapshot>,
    reply: MaybeBatch,
) -> bool {
    exists|queries: &[&[VectorElementType]], list: &SharedCandidates|
        {
            &&& #[trigger] search_batch.ensures((queries, list, top, reuse, snapshot), reply)
            &&& are_elements(queries@, vectors)
            &&& list.points@ == candidates
            &&& list.address == address
        }
}

/// The results of submissions, one after the other.
pub open spec fn concatenated(
    replies: Seq<Vec<Vec<ScoredPointOffset>>>,
) -> Seq<Vec<ScoredPointOffset>>
    decreases replies.len(),
{
    if replies.len() == 0 {
        Seq::empty()
    } else {
        concatenated(replies.drop_last()) + replies.last()@
    }
}

/// The first submissions were answered with these results.
pub open spec fn answered_first<
    M: Fn(&[&[VectorElementType]], &SharedCandidates, usize, bool,
        Option<GpuVisibilitySnapshot>) -> MaybeBatch,
>(
    search_batch: &M,
    vectors: Seq<&QueryVector>,
    candidates: Seq<PointOffsetType>,
    address: usize,
    top: usize,
    reuse: bool,
    snapshot: Option<GpuVisibilitySnapshot>,
    replies: Seq<Vec<Vec<ScoredPointOffset>>>,
) -> bool {
    let size = submission_size(candidates.len(), top as nat, reuse);
    &&& replies.len() <= ceil_div(vectors.len() as int, size as int)
    &&& forall|i: int|
        0 <= i < replies.len() ==> answered(
            search_batch,
            submission_of(vectors, size, i),
            candidates,
            address,
            top,
            reuse,
            snapshot,
            Ok(Some(#[trigger] replies[i])),
        )
}

/// Every submission was answered, up to the first one that was not.
pub open spec fn searched_in_batches<
    M: Fn(&[&[VectorElementType]], &SharedCandidates, usize, bool,
        Option<GpuVisibilitySnapshot>) -> MaybeBatch,
>(
    search_batch: &M,
    vectors: Seq<&QueryVector>,
    candidates: Seq<PointOffsetType>,
    address: usize,
    top: usize,
    reuse: bool,
    snapshot: Option<GpuVisibilitySnapshot>,
    r: MaybeBatch,
) -> bool {
    let size = submission_size(candidates.len(), top as nat, reuse);
    exists|replies: Seq<Vec<Vec<ScoredPointOffset>>>|
        {
            &&& #[trigger] answered_first(
                search_batch,
                vectors,
                candidates,
                address,
                top,
                reuse,
                snapshot,
                replies,
            )
            &&& match r {
                Ok(Some(results)) => {
                    &&& replies.len() == ceil_div(vectors.len() as int, size as int)
                    &&& results@ == concatenated(replies)
                },
                _ => {
                    &&& replies.len() < ceil_div(vectors.len() as int, size as int)
                    &&& answered(
                        search_batch,
                        submission_of(vectors, size, replies.len() as int),
                        candidates,
                        address,
                        top,
                        reuse,
                        snapshot,
                        r,
                    )
                },
            }
        }
}

/// Search for several queries in as few submissions as possible.
fn search_in_batches<
    M: Fn(&[&[VectorElementType]], &SharedCandidates, usize, bool,
        Option<GpuVisibilitySnapshot>) -> MaybeBatch,
>(
    search_batch: &M,
    vectors: &[&QueryVector],
    queries: &Vec<&[VectorElementType]>,
    candidates: &SharedCandidates,
    top: usize,
    reuse: bool,
    snapshot: Option<GpuVisibilitySnapshot>,
) -> (r: MaybeBatch)
    requires
        are_elements(queries@, vectors@),
        forall|chunk: &[&[VectorElementType]]| #[trigger]
            search_batch.requires((chunk, candidates, top, reuse, snapshot)),
    ensures
        searched_in_batches(
            search_batch,
            vectors@,
            candidates.points@,
            candidates.address,
            top,
            reuse,
            snapshot,
            r,
        ),
{
    let ghost points = candidates.points@;
    let size: usize = if GpuExactSearchCache::supports_submission_batch(
        candidates.points.len(),
        top,
        reuse,
    ) {
        GPU_EXACT_SUBMISSION_BATCH_LIMIT
    } else {
        1
    };
    let ghost mut replies: Seq<Vec<Vec<ScoredPointOffset>>> = Seq::empty();
    let mut results: Vec<Vec<ScoredPointOffset>> = Vec::new();
    let mut start: usize = 0;
    proof {
        lemma_ceil_div(vectors@.len() as int, size as int);
        assert(answered_first(
            search_batch,
            vectors@,
            points,
            candidates.address,
            top,
            reuse,
            snapshot,
            replies,
        ));
        assert(0 * size == 0) by (nonlinear_arith);
        assert(vectors@.len() == vectors.len());
    }
    while start < queries.len()
        invariant
            are_elements(queries@, vectors@),
            forall|chunk: &[&[VectorElementType]]| #[trigger]
                search_batch.requires((chunk, candidates, top, reuse, snapshot)),
            points == candidates.points@,
            size == submission_size(points.len(), top as nat, reuse),
            size == 1 || size == GPU_EXACT_SUBMISSION_BATCH_LIMIT,
            start == min_int(replies.len() * size, queries@.len() as int),
            start < queries@.len() ==> start == replies.len() * size,
            start == queries@.len() ==> replies.len() == ceil_div(
                vectors@.len() as int,
                size as int,
            ),
            answered_first(
                search_batch,
                vectors@,
                points,
                candidates.address,
                top,
                reuse,
                snapshot,
                replies,
            ),
            results@ == concatenated(replies),
        decreases queries@.len() - start,
    {
        let ghost k = replies.len() as int;
        let ghost n = vectors@.len() as int;
        proof {
            lemma_ceil_div(n, size as int);
            assert((k + 1) * size == k * size + size) by (nonlinear_arith);
            assert(k < ceil_div(n, size as int)) by (nonlinear_arith)
                requires
                    k * size < n,
                    n <= ceil_div(n, size as int) * size,
                    size > 0,
            ;
        }
        let left: usize = queries.len() - start;
        let end: usize = if left > size {
            start + size
        } else {
            queries.len()
        };
        let mut chunk: Vec<&[VectorElementType]> = Vec::new();
        let mut j: usize = start;
        while j < end
            invariant
                start <= j <= end <= queries@.len(),
                chunk@ == queries@.subrange(start as int, j as int),
            decreases end - j,
        {
            chunk.push(queries[j]);
            proof {
                assert(queries@.subrange(start as int, j + 1) =~= queries@.subrange(
                    start as int,
                    j as int,
                ).push(queries@[j as int]));
            }
            j = j + 1;
        }
        let slice = chunk.as_slice();
        let ghost part = submission_of(vectors@, size as nat, k);
        proof {
            assert(part =~= vectors@.subrange(start as int, end as int));
            assert(are_elements(slice@, part)) by {
                assert forall|i: int| 0 <= i < part.len() implies dense_of(*part[i]) == Some(
                    (#[trigger] slice@[i])@,
                ) by {
                    assert(dense_of(*vectors@[start + i]) == Some(queries@[start + i]@));
                }
            }
        }
        let reply = search_batch(slice, candidates, top, reuse, snapshot);
        proof {
            assert(search_batch.ensures((slice, candidates, top, reuse, snapshot), reply));
            assert(answered(
                search_batch,
                part,
                points,
                candidates.address,
                top,
                reuse,
                snapshot,
                reply,
            ));
        }
        match reply {
            Ok(Some(batch)) => {
                let ghost before = results@;
                let ghost given = batch;
                let mut batch = batch;
                results.append(&mut batch);
                proof {
                    let now = replies.push(given);
                    assert(now.drop_last() =~= replies);
                    assert(results@ =~= before + given@);
                    assert forall|i: int| 0 <= i < now.len() implies answered(
                        search_batch,
                        submission_of(vectors@, size as nat, i),
                        points,
                        candidates.address,
                        top,
                        reuse,
                        snapshot,
                        Ok(Some(#[trigger] now[i])),
                    ) by {
                        if i < replies.len() {
                            assert(now[i] == replies[i]);
                        }
                    }
                    if end == queries@.len() {
                        assert(k + 1 == ceil_div(n, size as int)) by (nonlinear_arith)
                            requires
                                k < ceil_div(n, size as int),
                                (ceil_div(n, size as int) - 1) * size < n,
                                n <= (k + 1) * size,
                                size > 0,
                        ;
                    }
                    replies = now;
                }
            },
            Ok(None) => {
                return Ok(None);
            },
            Err(error) => {
                return Err(error);
            },
        }
        start = end;
    }
    Ok(Some(results))
}

/// The device answered one query like this.
pub open spec fn answered_one<
    O: Fn(&[VectorElementType], &SharedCandidates, usize, bool,
        Option<GpuVisibilitySnapshot>) -> MaybeResult,
>(
    search_one: &O,
    vector: &QueryVector,
    candidates: Seq<PointOffsetType>,
    address: usize,
    top: usize,
    reuse: bool,
    snapshot: Option<GpuVisibilitySnapshot>,
    reply: MaybeResult,
) -> bool {
    exists|query: &[VectorElementType], list: &SharedCandidates|
        {
            &&& #[trigger] search_one.ensures((query, list, top, reuse, snapshot), reply)
            &&& dense_of(*vector) == Some(query@)
            &&& list.points@ == candidates
            &&& list.address == address
        }
}

/// What the device finds for all queries.
pub open spec fn device_found<
    O: Fn(&[VectorElementType], &SharedCandidates, usize, bool,
        Option<GpuVisibilitySnapshot>) -> MaybeResult,
    M: Fn(&[&[VectorElementType]], &SharedCandidates, usize, bool,
        Option<GpuVisibilitySnapshot>) -> MaybeBatch,
>(
    search_one: &O,
    search_batch: &M,
    vectors: Seq<&QueryVector>,
    candidates: Seq<PointOffsetType>,
    address: usize,
    top: usize,
    reuse: bool,
    snapshot: Option<GpuVisibilitySnapshot>,
    r: MaybeBatch,
) -> bool {
    if vectors.len() == 1 {
        exists|reply: MaybeResult|
            {
                &&& #[trigger] answered_one(
                    search_one,
                    vectors[0],
                    candidates,
                    address,
                    top,
                    reuse,
                    snapshot,
                    reply,
                )
                &&& match reply {
                    Ok(Some(points)) => r matches Ok(Some(results)) && results@ == seq![points],
                    Ok(None) => r matches Ok(None),
                    Err(error) => r == Err::<Option<Vec<Vec<ScoredPointOffset>>>, OperationError>(
                        error,
                    ),
                }
            }
    } else {
        searched_in_batches(search_batch, vectors, candidates, address, top, reuse, snapshot, r)
    }
}

/// The times of an exact search on the device were recorded.
pub open spec fn recorded<
    K: Fn() -> u64,
    A: Fn(usize, u64, u64, u64, u64, Option<bool>),
>(
    clock: &K,
    record: &A,
    query_count: nat,
    predicate_ns: u64,
    hit: Option<bool>,
) -> bool {
    exists|count: usize, visibility_ns: u64, cache_ns: u64, postprocess_ns: u64|
        {
            &&& #[trigger] record.ensures(
                (count, predicate_ns, visibility_ns, cache_ns, postprocess_ns, hit),
                (),
            )
            &&& count == query_count
            &&& timed(clock, visibility_ns)
            &&& timed(clock, cache_ns)
            &&& timed(clock, postprocess_ns)
        }
}

/// What an exact search gives once the device has answered. The times of a search that succeeds are
/// recorded.
pub open spec fn exact_outcome<
    P: Fn(Vec<ScoredPointOffset>, &QueryVector, usize) -> QueryResult,
    K: Fn() -> u64,
    A: Fn(usize, u64, u64, u64, u64, Option<bool>),
>(
    postprocess: &P,
    clock: &K,
    record: &A,
    vectors: Seq<&QueryVector>,
    top: usize,
    predicate_ns: u64,
    hit: Option<bool>,
    found: MaybeBatch,
    r: MaybeBatch,
) -> bool {
    match found {
        Err(error) => r == Err::<Option<Vec<Vec<ScoredPointOffset>>>, OperationError>(error),
        Ok(None) => r matches Ok(None),
        Ok(Some(lists)) => match r {
            Ok(Some(results)) => {
                &&& postprocessed(postprocess, vectors, top, lists@, Ok(results))
                &&& recorded(clock, record, vectors.len(), predicate_ns, hit)
            },
            Ok(None) => false,
            Err(error) => postprocessed(postprocess, vectors, top, lists@, Err(error)),
        },
    }
}

/// The device can be used for these queries and this many candidates.
pub open spec fn exact_applies(
    gpu: GpuSearchConfig,
    params: Option<SearchParams>,
    vectors: Seq<&QueryVector>,
    candidates: nat,
) -> bool {
    &&& gpu.enabled
    &&& is_exact(params)
    &&& all_dense(vectors)
    &&& gpu.min_candidates <= candidates <= gpu.max_candidates
}

/// What an exact search on the device gives.
pub open spec fn exact_searched<
    B: Fn() -> bool,
    O: Fn(&[VectorElementType], &SharedCandidates, usize, bool,
        Option<GpuVisibilitySnapshot>) -> MaybeResult,
    M: Fn(&[&[VectorElementType]], &SharedCandidates, usize, bool,
        Option<GpuVisibilitySnapshot>) -> MaybeBatch,
    P: Fn(Vec<ScoredPointOffset>, &QueryVector, usize) -> QueryResult,
    K: Fn() -> u64,
    A: Fn(usize, u64, u64, u64, u64, Option<bool>),
>(
    gpu: GpuSearchConfig,
    state: ExactSearchState,
    vectors: Seq<&QueryVector>,
    filtered: SharedCandidates,
    top: usize,
    params: Option<SearchParams>,
    deletions: QueryDeletions,
    predicate_ns: u64,
    filter_cache_hit: Option<bool>,
    ready: &B,
    search_one: &O,
    search_batch: &M,
    postprocess: &P,
    clock: &K,
    record: &A,
    r: MaybeBatch,
) -> bool {
    let reuse = reuses_candidates(state, deletions, filter_cache_hit);
    let candidates = scored_points(state, deletions, filter_cache_hit, filtered.points@);
    let address = scored_address(state, deletions, filter_cache_hit, filtered.address);
    let snapshot = snapshot_of(deletions, state.total_vector_count);
    if !exact_applies(gpu, params, vectors, candidates.len()) {
        r matches Ok(None)
    } else {
        ||| ready.ensures((), false) && r matches Ok(None)
        ||| ready.ensures((), true) && exists|found: MaybeBatch|
            {
                &&& #[trigger] device_found(
                    search_one,
                    search_batch,
                    vectors,
                    candidates,
                    address,
                    top,
                    reuse,
                    snapshot,
                    found,
                )
                &&& exact_outcome(
                    postprocess,
                    clock,
                    record,
                    vectors,
                    top,
                    predicate_ns,
                    filter_cache_hit,
                    found,
                    r,
                )
            }
    }
}

/// Score candidates exactly on the device, when it can be used.
///
/// `ready` sets the device up, `search_one` scores the candidates for one query and `search_batch`
/// for several, `postprocess` scores the best points again, `clock` tells the time in nanoseconds,
/// and `record` counts the work around a search that succeeded.
pub fn search_plain_gpu_exact<
    B: Fn() -> bool,
    O: Fn(&[VectorElementType], &SharedCandidates, usize, bool,
        Option<GpuVisibilitySnapshot>) -> MaybeResult,
    M: Fn(&[&[VectorElementType]], &SharedCandidates, usize, bool,
        Option<GpuVisibilitySnapshot>) -> MaybeBatch,
    P: Fn(Vec<ScoredPointOffset>, &QueryVector, usize) -> QueryResult,
    K: Fn() -> u64,
    A: Fn(usize, u64, u64, u64, u64, Option<bool>),
>(
    gpu: &GpuSearchConfig,
    state: &ExactSearchState,
    vectors: &[&QueryVector],
    filtered: &SharedCandidates,
    top: usize,
    params: Option<SearchParams>,
    deletions: QueryDeletions,
    predicate_ns: u64,
    filter_cache_hit: Option<bool>,
    ready: &B,
    search_one: &O,
    search_batch: &M,
    postprocess: &P,
    clock: &K,
    record: &A,
) -> (r: MaybeBatch)
    requires
        ready.requires(()),
        forall|
            query: &[VectorElementType],
            list: &SharedCandidates,
            reuse: bool,
            snapshot: Option<GpuVisibilitySnapshot>,
        | #[trigger]
            search_one.requires((query, list, top, reuse, snapshot)),
        forall|
            chunk: &[&[VectorElementType]],
            list: &SharedCandidates,
            reuse: bool,
            snapshot: Option<GpuVisibilitySnapshot>,
        | #[trigger]
            search_batch.requires((chunk, list, top, reuse, snapshot)),
        forall|points: Vec<ScoredPointOffset>, v: &QueryVector| #[trigger]
            postprocess.requires((points, v, top)),
        clock.requires(()),
        forall|
            count: usize,
            predicate: u64,
            visibility: u64,
            cache: u64,
            rescoring: u64,
            hit: Option<bool>,
        | #[trigger]
            record.requires((count, predicate, visibility, cache, rescoring, hit)),
    ensures
        exact_searched(
            *gpu,
            *state,
            vectors@,
            *filtered,
            top,
            params,
            deletions,
            predicate_ns,
            filter_cache_hit,
            ready,
            search_one,
            search_batch,
            postprocess,
            clock,
            record,
            r,
        ),
{
    if !gpu.enabled || !exact_wanted(params) {
        return Ok(None);
    }
    let queries = match dense_queries(vectors) {
        Some(queries) => queries,
        None => {
            return Ok(None);
        },
    };
    let visibility_started: u64 = clock();
    let snapshot = visibility_snapshot(deletions, state.total_vector_count);
    let no_deletions: bool = deletions.deleted_points.is_none() && state.deleted_point_count == 0
        && state.deleted_vector_count == 0;
    let reuse: bool = filter_cache_hit.is_some() && (no_deletions || snapshot.is_some());
    let candidates: SharedCandidates = if reuse {
        filtered.share()
    } else {
        let deleted_points: &[bool] = match deletions.deleted_points {
            Some(deleted) => deleted,
            None => state.deleted_points,
        };
        let live = keep_live(filtered.points.as_slice(), state.deleted_vectors, deleted_points);
        SharedCandidates { address: UNSHARED_ADDRESS, points: Arc::new(live) }
    };
    let visibility_ns: u64 = since(clock, visibility_started);
    let ghost points = scored_points(*state, deletions, filter_cache_hit, filtered.points@);
    proof {
        assert(candidates.points@ == points);
        assert(candidates.address == scored_address(
            *state,
            deletions,
            filter_cache_hit,
            filtered.address,
        ));
    }
    if candidates.points.len() < gpu.min_candidates || candidates.points.len()
        > gpu.max_candidates {
        return Ok(None);
    }
    let cache_started: u64 = clock();
    if !ready() {
        return Ok(None);
    }
    let cache_ns: u64 = since(clock, cache_started);
    let found: MaybeBatch = if queries.len() == 1 {
        let query: &[VectorElementType] = queries[0];
        let reply = search_one(query, &candidates, top, reuse, snapshot);
        proof {
            assert(search_one.ensures((query, &candidates, top, reuse, snapshot), reply));
            assert(dense_of(*vectors@[0]) == Some(queries@[0]@));
            assert(answered_one(
                search_one,
                vectors@[0],
                points,
                candidates.address,
                top,
                reuse,
                snapshot,
                reply,
            ));
        }
        match reply {
            Ok(Some(best)) => {
                let mut single: Vec<Vec<ScoredPointOffset>> = Vec::new();
                single.push(best);
                proof {
                    assert(single@ =~= seq![best]);
                }
                Ok(Some(single))
            },
            Ok(None) => Ok(None),
            Err(error) => Err(error),
        }
    } else {
        search_in_batches(search_batch, vectors, &queries, &candidates, top, reuse, snapshot)
    };
    proof {
        assert(device_found(
            search_one,
            search_batch,
            vectors@,
            points,
            candidates.address,
            top,
            reuse,
            snapshot,
            found,
        ));
    }
    let lists = match found {
        Ok(Some(lists)) => lists,
        Ok(None) => {
            let r = Ok(None);
            proof {
                assert(exact_outcome(
                    postprocess,
                    clock,
                    record,
                    vectors@,
                    top,
                    predicate_ns,
                    filter_cache_hit,
                    found,
                    r,
                ));
            }
            return r;
        },
        Err(error) => {
            let r = Err(error);
            proof {
                assert(exact_outcome(
                    postprocess,
                    clock,
                    record,
                    vectors@,
                    top,
                    predicate_ns,
                    filter_cache_hit,
                    found,
                    r,
                ));
            }
            return r;
        },
    };
    let postprocess_started: u64 = clock();
    let r = match postprocess_all(postprocess, vectors, top, lists) {
        Ok(results) => {
            let postprocess_ns: u64 = since(clock, postprocess_started);
            record(
                queries.len(),
                predicate_ns,
                visibility_ns,
                cache_ns,
                postprocess_ns,
                filter_cache_hit,
            );
            proof {
                assert(record.ensures(
                    (
                        queries.len(),
                        predicate_ns,
                        visibility_ns,
                        cache_ns,
                        postprocess_ns,
                        filter_cache_hit,
                    ),
                    (),
                ));
                assert(recorded(
                    clock,
                    record,
                    vectors@.len(),
                    predicate_ns,
                    filter_cache_hit,
                ));
            }
            Ok(Some(results))
        },
        Err(error) => Err(error),
    };
    proof {
        assert(exact_outcome(
            postprocess,
            clock,
            record,
            vectors@,
            top,
            predicate_ns,
            filter_cache_hit,
            found,
            r,
        ));
    }
    r
}

/// The kept points are exactly those of the list that are not deleted.
pub proof fn lemma_live_points(
    points: Seq<PointOffsetType>,
    deleted_vectors: Seq<bool>,
    deleted_points: Seq<bool>,
    point_id: PointOffsetType,
)
    ensures
        live_points(points, deleted_vectors, deleted_points).contains(point_id) <==> (
        points.contains(point_id) && is_live(point_id, deleted_vectors, deleted_points)),
    decreases points.len(),
{
    if points.len() > 0 {
        let previous = points.drop_last();
        let kept = live_points(previous, deleted_vectors, deleted_points);
        let all = live_points(points, deleted_vectors, deleted_points);
        lemma_live_points(previous, deleted_vectors, deleted_points, point_id);
        if kept.contains(point_id) {
            let i = kept.index_of(point_id);
            assert(all[i] == point_id);
        }
        if previous.contains(point_id) {
            let i = previous.index_of(point_id);
            assert(points[i] == point_id);
        }
        if points.last() == point_id {
            assert(points[points.len() - 1] == point_id);
            if is_live(point_id, deleted_vectors, deleted_points) {
                assert(all[all.len() - 1] == point_id);
            }
        }
        if points.contains(point_id) && points.last() != point_id {
            let i = points.index_of(point_id);
            assert(previous[i] == point_id);
        }
        if all.contains(point_id) && !kept.contains(point_id) {
            let i = all.index_of(point_id);
            if i < kept.len() {
                assert(kept[i] == point_id);
            }
        }
    }
}

} // verus!
