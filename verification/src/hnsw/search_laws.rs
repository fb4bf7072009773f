//! What plain search and graph search find, on the device and without it.

use std::sync::Arc;

use vstd::prelude::*;

use crate::error::{OperationError, OperationResult};
use crate::filter::{Filter, FilterView};
use crate::filter_laws::filter_holds;
use crate::gpu::filter_cache::FilterCacheView;
use crate::gpu::visibility::GpuVisibilitySnapshot;
use crate::hnsw::filter_cache_laws::{filter_looks_further, lemma_cacheable_filters};
use crate::hnsw::graph_search::{
    algorithm_chosen, candidates_found, cpu_searched, device_searched, ef_of, gpu_applies,
    gpu_attempted, gpu_query, graph_searched, ordinals, searched_vector, searched_with,
    snapshot_of, vectors_searched, GraphSearchState, MaybeResult, QueryDeletions, QueryResult,
    SearchAlgorithm, DISCOVERY_ENTRY_POINT_COUNT,
};
use crate::hnsw::params::{
    CardinalityEstimation, GpuSearchConfig, HnswGraphConfig, SearchParams,
};
use crate::hnsw::plain_search::{
    filter_searched, plain_candidates, plain_searched, selection_searched, MaybeBatch,
};
use crate::hnsw::routing::BatchResult;
use crate::hnsw::routing_laws::{all_answered, selection, Answers, Payloads, Selection};
use crate::storage::{
    is_context_of, pair_views, ContextPair, DiscoverQuery, QueryVector, VectorElementType,
    VectorInternal,
};
use crate::types::{PointOffsetType, ScoredPointOffset};

verus! {

/// The points of a list.
pub open spec fn in_list(list: Seq<PointOffsetType>) -> Selection {
    |point_id: PointOffsetType| list.contains(point_id)
}

/// The list holds the chosen points and no others.
pub open spec fn lists(list: Seq<PointOffsetType>, chosen: Selection) -> bool {
    forall|point_id: PointOffsetType| list.contains(point_id) == #[trigger] chosen(point_id)
}

/// What the cache of selections has for this state of the payload is right.
pub open spec fn cache_is_right(
    cache: FilterCacheView,
    payload_epoch: u64,
    payloads: Payloads,
) -> bool {
    cache.payload_epoch == payload_epoch ==> forall|filter: FilterView| #[trigger]
        cache.entries.contains_key(filter) ==> lists(
            cache.entries[filter],
            |point_id: PointOffsetType| filter_holds(filter, payloads(point_id)),
        )
}

/// A list of the chosen points stands for the choice.
pub(crate) proof fn lemma_lists(list: Seq<PointOffsetType>, chosen: Selection)
    requires
        lists(list, chosen),
    ensures
        in_list(list) == chosen,
{
    assert forall|point_id: PointOffsetType| #[trigger] in_list(list)(point_id) == chosen(
        point_id,
    ) by {}
    assert(in_list(list) =~= chosen);
}

/// Selections that were found are right, and the cache stays right.
proof fn lemma_found_selection_is_right<
    C: Fn(&Filter, CardinalityEstimation) -> OperationResult<Vec<PointOffsetType>>,
>(
    collect: &C,
    filter: &Filter,
    cardinality: CardinalityEstimation,
    payload_epoch: u64,
    before: FilterCacheView,
    after: FilterCacheView,
    hit: bool,
    payloads: Payloads,
    r: OperationResult<Seq<PointOffsetType>>,
)
    requires
        candidates_found(
            collect,
            filter,
            cardinality,
            payload_epoch,
            before,
            after,
            hit,
            r,
        ),
        cache_is_right(before, payload_epoch, payloads),
        forall|f: &Filter, c: CardinalityEstimation, points: Vec<PointOffsetType>| #[trigger]
            collect.ensures((f, c), Ok(points)) ==> lists(points@, selection(Some(f), payloads)),
    ensures
        cache_is_right(after, payload_epoch, payloads),
        after.payload_epoch == payload_epoch,
        r matches Ok(points) ==> lists(points, selection(Some(filter), payloads)),
{
    let model = filter.model();
    let chosen = selection(Some(filter), payloads);
    let meant = |point_id: PointOffsetType| filter_holds(model, payloads(point_id));
    assert(chosen =~= meant);
    let base = before.at_epoch(payload_epoch);
    assert(cache_is_right(base, payload_epoch, payloads));
    if hit {
        assert(base.entries.contains_key(model));
    } else {
        let collected = choose|collected: OperationResult<Vec<PointOffsetType>>|
            {
                &&& #[trigger] collect.ensures((filter, cardinality), collected)
                &&& match collected {
                    Ok(points) => {
                        &&& r == Ok::<Seq<PointOffsetType>, OperationError>(points@)
                        &&& after == base.offered(model, points@)
                    },
                    Err(error) => {
                        &&& r == Err::<Seq<PointOffsetType>, OperationError>(error)
                        &&& after == base
                    },
                }
            };
        if collected is Ok {
            let points = collected->Ok_0;
            assert(lists(points@, chosen));
            assert forall|f: FilterView| #[trigger] after.entries.contains_key(f) implies lists(
                after.entries[f],
                |point_id: PointOffsetType| filter_holds(f, payloads(point_id)),
            ) by {
                if f == model {
                    if base.entries.contains_key(model) {
                    } else {
                        assert(after.entries[f] == points@);
                    }
                } else {
                    assert(base.entries.contains_key(f));
                }
            }
        }
    }
}

/// A plain search answers for the points that its filter selects, wherever it takes them from and
/// whether the device answers or not: where filters are collected rightly and the cache of
/// selections is right, scoring on the device and scoring without it answer rightly for the points
/// they are given, every query gets the right answer, and the cache stays right.
pub proof fn lemma_plain_search_answers<
    E: Fn(&Filter) -> OperationResult<CardinalityEstimation>,
    C: Fn(&Filter, CardinalityEstimation) -> OperationResult<Vec<PointOffsetType>>,
    X: Fn(&[&QueryVector], &Arc<Vec<PointOffsetType>>, usize, Option<SearchParams>, u64,
        Option<bool>) -> MaybeBatch,
    T: Fn(&[&QueryVector], &[PointOffsetType], usize, Option<SearchParams>) -> BatchResult,
    K: Fn() -> u64,
>(
    gpu: GpuSearchConfig,
    payload_appendable: bool,
    payload_epoch: u64,
    estimate: &E,
    collect: &C,
    exact: &X,
    plain: &T,
    clock: &K,
    vectors: &[&QueryVector],
    filter: &Filter,
    top: usize,
    params: Option<SearchParams>,
    before: FilterCacheView,
    after: FilterCacheView,
    payloads: Payloads,
    answers: Answers,
    r: BatchResult,
)
    requires
        filter_searched(
            gpu,
            payload_appendable,
            payload_epoch,
            estimate,
            collect,
            exact,
            plain,
            clock,
            vectors,
            filter,
            top,
            params,
            before,
            after,
            r,
        ),
        cache_is_right(before, payload_epoch, payloads),
        forall|f: &Filter, c: CardinalityEstimation, points: Vec<PointOffsetType>| #[trigger]
            collect.ensures((f, c), Ok(points)) ==> lists(points@, selection(Some(f), payloads)),
        forall|
            list: &Arc<Vec<PointOffsetType>>,
            ns: u64,
            hit: Option<bool>,
            found: Vec<Vec<ScoredPointOffset>>,
        | #[trigger]
            exact.ensures((vectors, list, top, params, ns, hit), Ok(Some(found))) ==> all_answered(
                vectors@,
                in_list(list@),
                top,
                answers,
                Ok(found),
            ),
        forall|points: &[PointOffsetType], found: BatchResult| #[trigger]
            plain.ensures((vectors, points, top, params), found) ==> all_answered(
                vectors@,
                in_list(points@),
                top,
                answers,
                found,
            ),
    ensures
        all_answered(vectors@, selection(Some(filter), payloads), top, answers, r),
        cache_is_right(after, payload_epoch, payloads),
{
    let estimated = choose|estimated: OperationResult<CardinalityEstimation>|
        {
            &&& #[trigger] estimate.ensures((filter,), estimated)
            &&& match estimated {
                Err(error) => {
                    &&& r == Err::<Vec<Vec<ScoredPointOffset>>, OperationError>(error)
                    &&& after == before
                },
                Ok(cardinality) => selection_searched(
                    gpu,
                    payload_appendable,
                    payload_epoch,
                    collect,
                    exact,
                    plain,
                    clock,
                    vectors,
                    filter,
                    cardinality,
                    top,
                    params,
                    before,
                    after,
                    r,
                ),
            }
        };
    if estimated is Ok {
        let cardinality = estimated->Ok_0;
        let (hit, found) = choose|
            hit: Option<bool>,
            found: OperationResult<Seq<PointOffsetType>>,
        |
            {
                &&& #[trigger] plain_candidates(
                    gpu,
                    payload_appendable,
                    payload_epoch,
                    collect,
                    filter,
                    cardinality,
                    before,
                    after,
                    hit,
                    found,
                )
                &&& match found {
                    Err(error) => r == Err::<Vec<Vec<ScoredPointOffset>>, OperationError>(error),
                    Ok(candidates) => plain_searched(
                        exact,
                        plain,
                        clock,
                        vectors,
                        candidates,
                        top,
                        params,
                        hit,
                        r,
                    ),
                }
            };
        if hit is Some {
            lemma_found_selection_is_right(
                collect,
                filter,
                cardinality,
                payload_epoch,
                before,
                after,
                hit->0,
                payloads,
                found,
            );
        }
        if found is Ok {
            lemma_lists(found->Ok_0, selection(Some(filter), payloads));
        }
    }
}

/// The points that a state of deletions hides.
pub open spec fn hidden_by(snapshot: Option<GpuVisibilitySnapshot>) -> Selection {
    |point_id: PointOffsetType|
        snapshot is Some && point_id < snapshot->0.deleted@.len()
            && snapshot->0.deleted@[point_id as int]
}

/// The points of a choice that are not hidden.
pub open spec fn seen(chosen: Selection, hidden: Selection) -> Selection {
    |point_id: PointOffsetType| chosen(point_id) && !hidden(point_id)
}

/// What is known of deletions is right: nothing is deleted when the counters say so, and otherwise
/// the state of deletions that a search sees names exactly the deleted points.
pub open spec fn knows_deleted(
    state: GraphSearchState,
    deletions: QueryDeletions,
    deleted: Selection,
) -> bool {
    &&& state.deleted_point_count == 0 && state.deleted_vector_count == 0 ==> forall|
        point_id: PointOffsetType,
    | !#[trigger] deleted(point_id)
    &&& deletions.deleted_points matches Some(flags) ==> forall|point_id: PointOffsetType|
        #[trigger] deleted(point_id) == (point_id < flags@.len() && flags@[point_id as int])
}

/// How many points a search keeps on the way: as many as the caller asks for, and otherwise as many
/// as the graph is set up for.
pub open spec fn kept(config: HnswGraphConfig, params: Option<SearchParams>) -> usize {
    if params is Some && params->0.hnsw_ef is Some {
        params->0.hnsw_ef->0
    } else {
        config.ef
    }
}

/// What a graph search finds for a choice of points before it scores them again: so many points,
/// when at least so many are kept on the way.
pub type Walks = spec_fn(Selection, usize, usize) -> Seq<ScoredPointOffset>;

/// A search through the filter may start at the point.
pub open spec fn starts<N: Fn(&Filter) -> OperationResult<Option<ScoredPointOffset>>>(
    entry: &N,
    filter: Option<&Filter>,
    start: ScoredPointOffset,
) -> bool {
    filter is Some && entry.ensures((filter->0,), Ok(Some(start)))
}

/// A graph search finds points among those that its filter selects and that are not deleted, on the
/// device and without it: where the device walks over the points that it is given and that are not
/// hidden from it, from where a search through the filter starts, and searches without it walk over
/// the selected points that are not deleted, a search that succeeds has scored exactly what such a
/// walk finds, unless the vectors beside the links answered.
pub proof fn lemma_graph_search_walks<
    E: Fn(&Filter) -> OperationResult<CardinalityEstimation>,
    A: Fn(usize, usize, Option<u64>) -> bool,
    C: Fn(&Filter, CardinalityEstimation) -> OperationResult<Vec<PointOffsetType>>,
    N: Fn(&Filter) -> OperationResult<Option<ScoredPointOffset>>,
    X: Fn(
        &Vec<VectorElementType>,
        PointOffsetType,
        Arc<Vec<PointOffsetType>>,
        Option<GpuVisibilitySnapshot>,
        usize,
        usize,
    ) -> MaybeResult,
    V: Fn(usize, usize, Option<&[PointOffsetType]>) -> MaybeResult,
    G: Fn(usize, usize, SearchAlgorithm, Option<&[PointOffsetType]>) -> QueryResult,
    P: Fn(Vec<ScoredPointOffset>, usize) -> QueryResult,
>(
    config: HnswGraphConfig,
    gpu: GpuSearchConfig,
    state: GraphSearchState,
    vector: &QueryVector,
    filter: Option<&Filter>,
    top: usize,
    params: Option<SearchParams>,
    custom_entry_points: Option<&[PointOffsetType]>,
    deletions: QueryDeletions,
    estimate: &E,
    selective: &A,
    collect: &C,
    entry: &N,
    run: &X,
    with_vectors: &V,
    regular: &G,
    postprocess: &P,
    before: FilterCacheView,
    after: FilterCacheView,
    payloads: Payloads,
    deleted: Selection,
    walks: Walks,
    results: Vec<ScoredPointOffset>,
)
    requires
        graph_searched(
            config,
            gpu,
            state,
            vector,
            filter,
            top,
            params,
            custom_entry_points,
            deletions,
            estimate,
            selective,
            collect,
            entry,
            run,
            with_vectors,
            regular,
            postprocess,
            before,
            after,
            Ok(results),
        ),
        cache_is_right(before, state.payload_epoch, payloads),
        knows_deleted(state, deletions, deleted),
        forall|f: &Filter, c: CardinalityEstimation, points: Vec<PointOffsetType>| #[trigger]
            collect.ensures((f, c), Ok(points)) ==> lists(points@, selection(Some(f), payloads)),
        forall|f: &Filter| #[trigger]
            entry.ensures((f,), Ok(None)) ==> walks(
                seen(selection(Some(f), payloads), deleted),
                state.oversampled_top,
                kept(config, params),
            ).len() == 0,
        forall|
            query: &Vec<VectorElementType>,
            start: ScoredPointOffset,
            list: Arc<Vec<PointOffsetType>>,
            snapshot: Option<GpuVisibilitySnapshot>,
            points: Vec<ScoredPointOffset>,
        |
            *vector == QueryVector::Nearest(VectorInternal::Dense(*query)) && starts(
                entry,
                filter,
                start,
            ) && #[trigger] run.ensures(
                (query, start.idx, list, snapshot, state.oversampled_top, kept(config, params)),
                Ok(Some(points)),
            ) ==> points@ == walks(
                seen(in_list(list@), hidden_by(snapshot)),
                state.oversampled_top,
                kept(config, params),
            ),
        forall|a: SearchAlgorithm, points: Vec<ScoredPointOffset>| #[trigger]
            regular.ensures(
                (state.oversampled_top, kept(config, params), a, custom_entry_points),
                Ok(points),
            ) ==> points@ == walks(
                seen(selection(filter, payloads), deleted),
                state.oversampled_top,
                kept(config, params),
            ),
    ensures
        cache_is_right(after, state.payload_epoch, payloads),
        (state.has_inline_vectors && state.quantized_search && exists|keep: usize|
            {
                &&& keep >= kept(config, params)
                &&& keep >= state.oversampled_top
                &&& keep == kept(config, params) || keep == state.oversampled_top
                &&& #[trigger] with_vectors.ensures(
                    (top, keep, custom_entry_points),
                    Ok(Some(results)),
                )
            }) || exists|points: Vec<ScoredPointOffset>|
            {
                &&& points@ == walks(
                    seen(selection(filter, payloads), deleted),
                    state.oversampled_top,
                    kept(config, params),
                )
                &&& #[trigger] postprocess.ensures((points, top), Ok(results))
            },
{
    let ef = kept(config, params);
    let r: QueryResult = Ok(results);
    let algorithm = choose|algorithm: OperationResult<SearchAlgorithm>|
        {
            &&& #[trigger] algorithm_chosen(
                config,
                state.available_vector_count,
                filter,
                params,
                estimate,
                selective,
                algorithm,
            )
            &&& match algorithm {
                Err(error) => {
                    &&& r == Err::<Vec<ScoredPointOffset>, OperationError>(error)
                    &&& after == before
                },
                Ok(algorithm) => searched_with(
                    gpu,
                    state,
                    vector,
                    filter,
                    top,
                    ef,
                    algorithm,
                    custom_entry_points,
                    deletions,
                    estimate,
                    collect,
                    entry,
                    run,
                    with_vectors,
                    regular,
                    postprocess,
                    before,
                    after,
                    r,
                ),
            }
        };
    assert(algorithm is Ok);
    match gpu_query(vector, filter, algorithm->Ok_0, custom_entry_points) {
        None => {},
        Some((f, query)) => {
            let attempt = choose|attempt: MaybeResult|
                {
                    &&& #[trigger] gpu_attempted(
                        gpu,
                        state,
                        f,
                        query,
                        ef,
                        deletions,
                        estimate,
                        collect,
                        entry,
                        run,
                        before,
                        after,
                        attempt,
                    )
                    &&& match attempt {
                        Err(error) => r == Err::<Vec<ScoredPointOffset>, OperationError>(error),
                        Ok(Some(points)) => postprocess.ensures((points, top), r),
                        Ok(None) => cpu_searched(
                            with_vectors,
                            regular,
                            postprocess,
                            state,
                            ef,
                            SearchAlgorithm::Hnsw,
                            None,
                            top,
                            r,
                        ),
                    }
                };
            lemma_attempt_walks(
                gpu,
                state,
                f,
                query,
                ef,
                deletions,
                estimate,
                collect,
                entry,
                run,
                before,
                after,
                payloads,
                deleted,
                walks,
                attempt,
            );
        },
    }
}

/// An attempt on the device.
proof fn lemma_attempt_walks<
    E: Fn(&Filter) -> OperationResult<CardinalityEstimation>,
    C: Fn(&Filter, CardinalityEstimation) -> OperationResult<Vec<PointOffsetType>>,
    N: Fn(&Filter) -> OperationResult<Option<ScoredPointOffset>>,
    X: Fn(
        &Vec<VectorElementType>,
        PointOffsetType,
        Arc<Vec<PointOffsetType>>,
        Option<GpuVisibilitySnapshot>,
        usize,
        usize,
    ) -> MaybeResult,
>(
    gpu: GpuSearchConfig,
    state: GraphSearchState,
    filter: &Filter,
    query: &Vec<VectorElementType>,
    ef: usize,
    deletions: QueryDeletions,
    estimate: &E,
    collect: &C,
    entry: &N,
    run: &X,
    before: FilterCacheView,
    after: FilterCacheView,
    payloads: Payloads,
    deleted: Selection,
    walks: Walks,
    r: MaybeResult,
)
    requires
        gpu_attempted(
            gpu,
            state,
            filter,
            query,
            ef,
            deletions,
            estimate,
            collect,
            entry,
            run,
            before,
            after,
            r,
        ),
        cache_is_right(before, state.payload_epoch, payloads),
        knows_deleted(state, deletions, deleted),
        forall|f: &Filter, c: CardinalityEstimation, points: Vec<PointOffsetType>| #[trigger]
            collect.ensures((f, c), Ok(points)) ==> lists(points@, selection(Some(f), payloads)),
        forall|f: &Filter| #[trigger]
            entry.ensures((f,), Ok(None)) ==> walks(
                seen(selection(Some(f), payloads), deleted),
                state.oversampled_top,
                ef,
            ).len() == 0,
        forall|
            start: ScoredPointOffset,
            list: Arc<Vec<PointOffsetType>>,
            snapshot: Option<GpuVisibilitySnapshot>,
            points: Vec<ScoredPointOffset>,
        |
            starts(entry, Some(filter), start) && #[trigger] run.ensures(
                (query, start.idx, list, snapshot, state.oversampled_top, ef),
                Ok(Some(points)),
            ) ==> points@ == walks(
                seen(in_list(list@), hidden_by(snapshot)),
                state.oversampled_top,
                ef,
            ),
    ensures
        cache_is_right(after, state.payload_epoch, payloads),
        r matches Ok(Some(points)) ==> points@ == walks(
            seen(selection(Some(filter), payloads), deleted),
            state.oversampled_top,
            ef,
        ),
{
    let chosen = selection(Some(filter), payloads);
    let snapshot = snapshot_of(deletions, state.total_vector_count);
    let estimated = choose|estimated: OperationResult<CardinalityEstimation>|
        {
            &&& #[trigger] estimate.ensures((filter,), estimated)
            &&& match estimated {
                Err(error) => {
                    &&& r == Err::<Option<Vec<ScoredPointOffset>>, OperationError>(error)
                    &&& after == before
                },
                Ok(cardinality) => if !gpu_applies(
                    gpu,
                    state,
                    filter.model(),
                    cardinality,
                    deletions,
                ) {
                    &&& r == Ok::<Option<Vec<ScoredPointOffset>>, OperationError>(None)
                    &&& after == before
                } else {
                    exists|hit: bool, candidates: OperationResult<Seq<PointOffsetType>>|
                        {
                            &&& #[trigger] candidates_found(
                                collect,
                                filter,
                                cardinality,
                                state.payload_epoch,
                                before,
                                after,
                                hit,
                                candidates,
                            )
                            &&& match candidates {
                                Err(error) => r == Err::<
                                    Option<Vec<ScoredPointOffset>>,
                                    OperationError,
                                >(error),
                                Ok(candidates) => r matches Ok(found) && device_searched(
                                    entry,
                                    run,
                                    filter,
                                    query,
                                    candidates,
                                    snapshot,
                                    state.oversampled_top,
                                    ef,
                                    found,
                                ),
                            }
                        }
                },
            }
        };
    if estimated is Ok && gpu_applies(
        gpu,
        state,
        filter.model(),
        estimated->Ok_0,
        deletions,
    ) {
        let cardinality = estimated->Ok_0;
        let (hit, found) = choose|hit: bool, found: OperationResult<Seq<PointOffsetType>>|
            {
                &&& #[trigger] candidates_found(
                    collect,
                    filter,
                    cardinality,
                    state.payload_epoch,
                    before,
                    after,
                    hit,
                    found,
                )
                &&& match found {
                    Err(error) => r == Err::<Option<Vec<ScoredPointOffset>>, OperationError>(
                        error,
                    ),
                    Ok(candidates) => r matches Ok(points) && device_searched(
                        entry,
                        run,
                        filter,
                        query,
                        candidates,
                        snapshot,
                        state.oversampled_top,
                        ef,
                        points,
                    ),
                }
            };
        lemma_found_selection_is_right(
            collect,
            filter,
            cardinality,
            state.payload_epoch,
            before,
            after,
            hit,
            payloads,
            found,
        );
        if found is Ok && r->Ok_0 is Some {
            lemma_lists(found->Ok_0, chosen);
            assert forall|point_id: PointOffsetType| #[trigger] hidden_by(snapshot)(point_id)
                == deleted(point_id) by {}
            assert(hidden_by(snapshot) =~= deleted);
            let points = r->Ok_0->Some_0;
            assert(points@ =~= walks(seen(chosen, deleted), state.oversampled_top, ef));
        }
    }
}

/// A graph search succeeds where the searches without the device do, whatever becomes of the device.
pub proof fn lemma_graph_search_succeeds<
    E: Fn(&Filter) -> OperationResult<CardinalityEstimation>,
    A: Fn(usize, usize, Option<u64>) -> bool,
    C: Fn(&Filter, CardinalityEstimation) -> OperationResult<Vec<PointOffsetType>>,
    N: Fn(&Filter) -> OperationResult<Option<ScoredPointOffset>>,
    X: Fn(
        &Vec<VectorElementType>,
        PointOffsetType,
        Arc<Vec<PointOffsetType>>,
        Option<GpuVisibilitySnapshot>,
        usize,
        usize,
    ) -> MaybeResult,
    V: Fn(usize, usize, Option<&[PointOffsetType]>) -> MaybeResult,
    G: Fn(usize, usize, SearchAlgorithm, Option<&[PointOffsetType]>) -> QueryResult,
    P: Fn(Vec<ScoredPointOffset>, usize) -> QueryResult,
>(
    config: HnswGraphConfig,
    gpu: GpuSearchConfig,
    state: GraphSearchState,
    vector: &QueryVector,
    filter: Option<&Filter>,
    top: usize,
    params: Option<SearchParams>,
    custom_entry_points: Option<&[PointOffsetType]>,
    deletions: QueryDeletions,
    estimate: &E,
    selective: &A,
    collect: &C,
    entry: &N,
    run: &X,
    with_vectors: &V,
    regular: &G,
    postprocess: &P,
    before: FilterCacheView,
    after: FilterCacheView,
    r: QueryResult,
)
    requires
        graph_searched(
            config,
            gpu,
            state,
            vector,
            filter,
            top,
            params,
            custom_entry_points,
            deletions,
            estimate,
            selective,
            collect,
            entry,
            run,
            with_vectors,
            regular,
            postprocess,
            before,
            after,
            r,
        ),
        forall|f: &Filter, found: OperationResult<CardinalityEstimation>| #[trigger]
            estimate.ensures((f,), found) ==> found is Ok,
        forall|
            f: &Filter,
            c: CardinalityEstimation,
            found: OperationResult<Vec<PointOffsetType>>,
        | #[trigger]
            collect.ensures((f, c), found) ==> found is Ok,
        forall|count: usize, keep: usize, found: MaybeResult| #[trigger]
            with_vectors.ensures((count, keep, custom_entry_points), found) ==> found is Ok,
        forall|count: usize, keep: usize, a: SearchAlgorithm, found: QueryResult| #[trigger]
            regular.ensures((count, keep, a, custom_entry_points), found) ==> found is Ok,
        forall|points: Vec<ScoredPointOffset>, found: QueryResult| #[trigger]
            postprocess.ensures((points, top), found) ==> found is Ok,
    ensures
        r is Ok,
{
    let algorithm = choose|algorithm: OperationResult<SearchAlgorithm>|
        {
            &&& #[trigger] algorithm_chosen(
                config,
                state.available_vector_count,
                filter,
                params,
                estimate,
                selective,
                algorithm,
            )
            &&& match algorithm {
                Err(error) => {
                    &&& r == Err::<Vec<ScoredPointOffset>, OperationError>(error)
                    &&& after == before
                },
                Ok(algorithm) => searched_with(
                    gpu,
                    state,
                    vector,
                    filter,
                    top,
                    ef_of(config, params),
                    algorithm,
                    custom_entry_points,
                    deletions,
                    estimate,
                    collect,
                    entry,
                    run,
                    with_vectors,
                    regular,
                    postprocess,
                    before,
                    after,
                    r,
                ),
            }
        };
    assert(algorithm is Ok);
}

/// The caller allows the second algorithm.
pub open spec fn asks_for_acorn(params: Option<SearchParams>) -> bool {
    params is Some && params->0.acorn is Some && params->0.acorn->0.enable
}

/// The second algorithm is used for filters that select a small share of the points, when the
/// caller allows it and the lowest layer has links, and for no other search.
pub proof fn lemma_algorithm_fits_filter<
    E: Fn(&Filter) -> OperationResult<CardinalityEstimation>,
    A: Fn(usize, usize, Option<u64>) -> bool,
>(
    config: HnswGraphConfig,
    available_vector_count: usize,
    filter: Option<&Filter>,
    params: Option<SearchParams>,
    estimate: &E,
    selective: &A,
    selected: spec_fn(FilterView) -> usize,
    small: spec_fn(usize, usize, Option<u64>) -> bool,
    algorithm: SearchAlgorithm,
)
    requires
        algorithm_chosen(
            config,
            available_vector_count,
            filter,
            params,
            estimate,
            selective,
            Ok(algorithm),
        ),
        forall|f: &Filter, found: CardinalityEstimation| #[trigger]
            estimate.ensures((f,), Ok(found)) ==> found.exp == selected(f.model()),
        forall|part: usize, whole: usize, limit: Option<u64>, is_small: bool| #[trigger]
            selective.ensures((part, whole, limit), is_small) ==> is_small == small(
                part,
                whole,
                limit,
            ),
    ensures
        algorithm == SearchAlgorithm::Acorn ==> asks_for_acorn(params) && filter is Some
            && config.m0 != 0,
        asks_for_acorn(params) && filter is Some && config.m0 != 0 && available_vector_count > 0
            ==> (algorithm == SearchAlgorithm::Acorn) == small(
            selected(filter->0.model()),
            available_vector_count,
            params->0.acorn->0.max_selectivity,
        ),
{
}

/// The right answer to a query that starts at given points, or at the usual ones.
pub type AnswersFrom = spec_fn(
    QueryVector,
    Selection,
    usize,
    Option<Seq<PointOffsetType>>,
) -> Seq<ScoredPointOffset>;

/// The query asks for the pairs of the context, without the target.
pub open spec fn asks_for_pairs(query: QueryVector, pairs: Seq<ContextPair>) -> bool {
    query matches QueryVector::Context(asked) && asked@.len() == pairs.len() && forall|i: int|
        0 <= i < pairs.len() ==> (#[trigger] asked@[i]).positive@ == pairs[i].positive@
            && asked@[i].negative@ == pairs[i].negative@
}

/// The points of a result, in its order.
pub open spec fn found_at(points: Seq<ScoredPointOffset>) -> Seq<PointOffsetType> {
    Seq::new(points.len(), |k: int| points[k].idx)
}

/// The right answer to a query: one with a target and a context starts at the ten best points of its
/// context.
pub open spec fn answers_query(
    vector: QueryVector,
    chosen: Selection,
    top: usize,
    answers: AnswersFrom,
    result: Seq<ScoredPointOffset>,
) -> bool {
    match vector {
        QueryVector::Discover(discover) => exists|context: QueryVector|
            #![trigger answers(context, chosen, 10, None)]
            {
                &&& asks_for_pairs(context, discover.pairs@)
                &&& result == answers(
                    vector,
                    chosen,
                    top,
                    Some(found_at(answers(context, chosen, 10, None))),
                )
            },
        _ => result == answers(vector, chosen, top, None),
    }
}

/// Every query of a batch gets its own answer, among the points that the filter selects: where a
/// search over the graph answers rightly from the points where it starts, so does the batch.
pub proof fn lemma_graph_batch_answers<
    Q: Fn(&QueryVector, Option<&Filter>, usize, Option<SearchParams>, Option<&[PointOffsetType]>)
        -> QueryResult,
>(
    search: &Q,
    vectors: Seq<&QueryVector>,
    filter: Option<&Filter>,
    top: usize,
    params: Option<SearchParams>,
    payloads: Payloads,
    answers: AnswersFrom,
    results: Vec<Vec<ScoredPointOffset>>,
)
    requires
        vectors_searched(search, vectors, filter, top, params, Ok(results)),
        forall|
            v: &QueryVector,
            f: Option<&Filter>,
            count: usize,
            entries: Option<&[PointOffsetType]>,
            found: Vec<ScoredPointOffset>,
        | #[trigger]
            search.ensures((v, f, count, params, entries), Ok(found)) ==> found@ == answers(
                *v,
                selection(f, payloads),
                count,
                match entries {
                    Some(entries) => Some(entries@),
                    None => None,
                },
            ),
    ensures
        results@.len() == vectors.len(),
        forall|i: int|
            0 <= i < vectors.len() ==> answers_query(
                *vectors[i],
                selection(filter, payloads),
                top,
                answers,
                (#[trigger] results@[i])@,
            ),
{
    let chosen = selection(filter, payloads);
    assert forall|i: int| 0 <= i < vectors.len() implies answers_query(
        *vectors[i],
        chosen,
        top,
        answers,
        (#[trigger] results@[i])@,
    ) by {
        let vector = vectors[i];
        let r: QueryResult = Ok(results@[i]);
        assert(searched_vector(search, vector, filter, top, params, r));
        if let QueryVector::Discover(discover) = *vector {
            let (context, first) = choose|context: QueryVector, first: QueryResult|
                {
                    &&& #[trigger] search.ensures(
                        (&context, filter, DISCOVERY_ENTRY_POINT_COUNT, params, None),
                        first,
                    )
                    &&& is_context_of(context, discover)
                    &&& match first {
                        Err(error) => r == Err::<Vec<ScoredPointOffset>, OperationError>(error),
                        Ok(points) => exists|entries: &[PointOffsetType]|
                            {
                                &&& #[trigger] search.ensures(
                                    (vector, filter, top, params, Some(entries)),
                                    r,
                                )
                                &&& entries@ == ordinals(points@)
                            },
                    }
                };
            let points = first->Ok_0;
            let entries = choose|entries: &[PointOffsetType]|
                {
                    &&& #[trigger] search.ensures((vector, filter, top, params, Some(entries)), r)
                    &&& entries@ == ordinals(points@)
                };
            assert(points@ == answers(context, chosen, 10, None));
            assert(entries@ =~= found_at(answers(context, chosen, 10, None)));
            lemma_same_pairs(context, discover);
        }
    }
}

/// Pairs with the same views.
proof fn lemma_same_pairs(context: QueryVector, discover: DiscoverQuery)
    requires
        is_context_of(context, discover),
    ensures
        asks_for_pairs(context, discover.pairs@),
{
    if let QueryVector::Context(asked) = context {
        assert(pair_views(asked@).len() == pair_views(discover.pairs@).len());
        assert forall|i: int| 0 <= i < discover.pairs@.len() implies (#[trigger]
        asked@[i]).positive@ == discover.pairs@[i].positive@ && asked@[i].negative@
            == discover.pairs@[i].negative@ by {
            assert(pair_views(asked@)[i] == pair_views(discover.pairs@)[i]);
        }
    }
}

/// The cache holds nothing new but the selection of this filter, which looks at payloads only, and
/// only where payloads cannot change unseen.
pub open spec fn keeps_only(
    before: FilterCacheView,
    after: FilterCacheView,
    filter: FilterView,
    payload_appendable: bool,
) -> bool {
    forall|key: FilterView| #[trigger]
        after.entries.contains_key(key) ==> before.entries.contains_key(key) || (key == filter
            && !filter_looks_further(filter) && !payload_appendable)
}

/// A plain search keeps a selection only where it stays right.
pub proof fn lemma_plain_search_keeps_right_selections<
    E: Fn(&Filter) -> OperationResult<CardinalityEstimation>,
    C: Fn(&Filter, CardinalityEstimation) -> OperationResult<Vec<PointOffsetType>>,
    X: Fn(&[&QueryVector], &Arc<Vec<PointOffsetType>>, usize, Option<SearchParams>, u64,
        Option<bool>) -> MaybeBatch,
    T: Fn(&[&QueryVector], &[PointOffsetType], usize, Option<SearchParams>) -> BatchResult,
    K: Fn() -> u64,
>(
    gpu: GpuSearchConfig,
    payload_appendable: bool,
    payload_epoch: u64,
    estimate: &E,
    collect: &C,
    exact: &X,
    plain: &T,
    clock: &K,
    vectors: &[&QueryVector],
    filter: &Filter,
    top: usize,
    params: Option<SearchParams>,
    before: FilterCacheView,
    after: FilterCacheView,
    r: BatchResult,
)
    requires
        filter_searched(
            gpu,
            payload_appendable,
            payload_epoch,
            estimate,
            collect,
            exact,
            plain,
            clock,
            vectors,
            filter,
            top,
            params,
            before,
            after,
            r,
        ),
    ensures
        keeps_only(before, after, filter.model(), payload_appendable),
{
    lemma_cacheable_filters(filter.model());
}

/// A graph search keeps a selection only where it stays right, and none without a filter.
pub proof fn lemma_graph_search_keeps_right_selections<
    E: Fn(&Filter) -> OperationResult<CardinalityEstimation>,
    A: Fn(usize, usize, Option<u64>) -> bool,
    C: Fn(&Filter, CardinalityEstimation) -> OperationResult<Vec<PointOffsetType>>,
    N: Fn(&Filter) -> OperationResult<Option<ScoredPointOffset>>,
    X: Fn(
        &Vec<VectorElementType>,
        PointOffsetType,
        Arc<Vec<PointOffsetType>>,
        Option<GpuVisibilitySnapshot>,
        usize,
        usize,
    ) -> MaybeResult,
    V: Fn(usize, usize, Option<&[PointOffsetType]>) -> MaybeResult,
    G: Fn(usize, usize, SearchAlgorithm, Option<&[PointOffsetType]>) -> QueryResult,
    P: Fn(Vec<ScoredPointOffset>, usize) -> QueryResult,
>(
    config: HnswGraphConfig,
    gpu: GpuSearchConfig,
    state: GraphSearchState,
    vector: &QueryVector,
    filter: Option<&Filter>,
    top: usize,
    params: Option<SearchParams>,
    custom_entry_points: Option<&[PointOffsetType]>,
    deletions: QueryDeletions,
    estimate: &E,
    selective: &A,
    collect: &C,
    entry: &N,
    run: &X,
    with_vectors: &V,
    regular: &G,
    postprocess: &P,
    before: FilterCacheView,
    after: FilterCacheView,
    r: QueryResult,
)
    requires
        graph_searched(
            config,
            gpu,
            state,
            vector,
            filter,
            top,
            params,
            custom_entry_points,
            deletions,
            estimate,
            selective,
            collect,
            entry,
            run,
            with_vectors,
            regular,
            postprocess,
            before,
            after,
            r,
        ),
    ensures
        filter matches Some(filter) ==> keeps_only(
            before,
            after,
            filter.model(),
            state.payload_appendable,
        ),
        filter is None ==> after == before,
{
    if filter is Some {
        lemma_cacheable_filters(filter->0.model());
    }
}

/// A plain search succeeds where the search without the device does, whatever becomes of the device.
pub proof fn lemma_plain_search_succeeds<
    E: Fn(&Filter) -> OperationResult<CardinalityEstimation>,
    C: Fn(&Filter, CardinalityEstimation) -> OperationResult<Vec<PointOffsetType>>,
    X: Fn(&[&QueryVector], &Arc<Vec<PointOffsetType>>, usize, Option<SearchParams>, u64,
        Option<bool>) -> MaybeBatch,
    T: Fn(&[&QueryVector], &[PointOffsetType], usize, Option<SearchParams>) -> BatchResult,
    K: Fn() -> u64,
>(
    gpu: GpuSearchConfig,
    payload_appendable: bool,
    payload_epoch: u64,
    estimate: &E,
    collect: &C,
    exact: &X,
    plain: &T,
    clock: &K,
    vectors: &[&QueryVector],
    filter: &Filter,
    top: usize,
    params: Option<SearchParams>,
    before: FilterCacheView,
    after: FilterCacheView,
    r: BatchResult,
)
    requires
        filter_searched(
            gpu,
            payload_appendable,
            payload_epoch,
            estimate,
            collect,
            exact,
            plain,
            clock,
            vectors,
            filter,
            top,
            params,
            before,
            after,
            r,
        ),
        forall|f: &Filter, found: OperationResult<CardinalityEstimation>| #[trigger]
            estimate.ensures((f,), found) ==> found is Ok,
        forall|
            f: &Filter,
            c: CardinalityEstimation,
            found: OperationResult<Vec<PointOffsetType>>,
        | #[trigger]
            collect.ensures((f, c), found) ==> found is Ok,
        forall|points: &[PointOffsetType], found: BatchResult| #[trigger]
            plain.ensures((vectors, points, top, params), found) ==> found is Ok,
    ensures
        r is Ok,
{
}

} // verus!
