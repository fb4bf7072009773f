//! Choice between plain search and graph search.

use vstd::prelude::*;

use crate::error::{failed, OperationError, OperationResult};
use crate::factorized_filter::{
    factorization_outcome, total_len, FactorizedFilterPlan, FactorizedFilterPlanError,
};
use crate::filter::Filter;
use crate::hnsw::params::{
    exact_wanted, is_exact, params_for_plain, plain_params, CardinalityEstimation,
    HnswGraphConfig, SearchParams, SearchTimer,
};
use crate::storage::QueryVector;
use crate::types::ScoredPointOffset;

verus! {

/// Results of every query.
pub type BatchResult = OperationResult<Vec<Vec<ScoredPointOffset>>>;

/// Every query got an empty result.
pub open spec fn all_empty(r: BatchResult, count: nat) -> bool {
    r matches Ok(results) && results@.len() == count && forall|i: int|
        0 <= i < results@.len() ==> (#[trigger] results@[i])@.len() == 0
}

/// An empty result for every query.
fn empty_results(count: usize) -> (r: Vec<Vec<ScoredPointOffset>>)
    ensures
        r@.len() == count,
        forall|i: int| 0 <= i < count ==> (#[trigger] r@[i])@.len() == 0,
{
    let mut r: Vec<Vec<ScoredPointOffset>> = Vec::new();
    let mut i: usize = 0;
    while i < count
        invariant
            i <= count,
            r@.len() == i,
            forall|j: int| 0 <= j < i ==> (#[trigger] r@[j])@.len() == 0,
        decreases count - i,
    {
        r.push(Vec::new());
        i = i + 1;
    }
    r
}

/// Searches without a filter scan all points when the search must be exact, when there are no
/// links, or when few points are left.
pub open spec fn scans_all(
    config: HnswGraphConfig,
    params: Option<SearchParams>,
    available_vector_count: usize,
) -> bool {
    is_exact(params) || config.spec_is_disabled() || available_vector_count
        < config.full_scan_threshold
}

/// How a filtered search proceeds.
pub open spec fn filtered_route<
    E: Fn(&Filter) -> OperationResult<CardinalityEstimation>,
    S: Fn(&Filter) -> OperationResult<bool>,
    P: Fn(&[&QueryVector], &Filter, usize, Option<SearchParams>, SearchTimer) -> BatchResult,
    G: Fn(&[&QueryVector], Option<&Filter>, usize, Option<SearchParams>, SearchTimer) ->
        BatchResult,
>(
    config: HnswGraphConfig,
    vectors: &[&QueryVector],
    filter: &Filter,
    top: usize,
    params: Option<SearchParams>,
    estimate: &E,
    sample: &S,
    plain: &P,
    graph: &G,
    r: BatchResult,
) -> bool {
    let small = |r: BatchResult|
        plain.ensures((vectors, filter, top, params, SearchTimer::SmallCardinality), r);
    let large = |r: BatchResult|
        graph.ensures((vectors, Some(filter), top, params, SearchTimer::LargeCardinality), r);
    if is_exact(params) || config.spec_is_disabled() {
        plain.ensures(
            (
                vectors,
                filter,
                top,
                plain_params(params),
                if is_exact(params) {
                    SearchTimer::ExactFiltered
                } else {
                    SearchTimer::FilteredPlain
                },
            ),
            r,
        )
    } else {
        exists|estimated: OperationResult<CardinalityEstimation>|
            {
                &&& #[trigger] estimate.ensures((filter,), estimated)
                &&& match estimated {
                    Err(error) => r == Err::<Vec<Vec<ScoredPointOffset>>, OperationError>(error),
                    Ok(cardinality) => if cardinality.max < config.full_scan_threshold {
                        small(r)
                    } else if cardinality.min > config.full_scan_threshold {
                        large(r)
                    } else {
                        exists|sampled: OperationResult<bool>|
                            {
                                &&& #[trigger] sample.ensures((filter,), sampled)
                                &&& match sampled {
                                    Err(error) => r == Err::<
                                        Vec<Vec<ScoredPointOffset>>,
                                        OperationError,
                                    >(error),
                                    Ok(use_graph) => if use_graph {
                                        large(r)
                                    } else {
                                        small(r)
                                    },
                                }
                            }
                    },
                }
            }
    }
}

/// What a search for several queries with one filter gives.
pub open spec fn routed<
    E: Fn(&Filter) -> OperationResult<CardinalityEstimation>,
    S: Fn(&Filter) -> OperationResult<bool>,
    A: Fn(&[&QueryVector], usize, Option<SearchParams>, SearchTimer) -> BatchResult,
    P: Fn(&[&QueryVector], &Filter, usize, Option<SearchParams>, SearchTimer) -> BatchResult,
    G: Fn(&[&QueryVector], Option<&Filter>, usize, Option<SearchParams>, SearchTimer) ->
        BatchResult,
>(
    config: HnswGraphConfig,
    available_vector_count: usize,
    vectors: &[&QueryVector],
    filter: Option<&Filter>,
    top: usize,
    params: Option<SearchParams>,
    estimate: &E,
    sample: &S,
    scan: &A,
    plain: &P,
    graph: &G,
    r: BatchResult,
) -> bool {
    if top == 0 {
        all_empty(r, vectors@.len())
    } else {
        match filter {
            None => if scans_all(config, params, available_vector_count) {
                scan.ensures(
                    (
                        vectors,
                        top,
                        plain_params(params),
                        if is_exact(params) {
                            SearchTimer::ExactUnfiltered
                        } else {
                            SearchTimer::UnfilteredPlain
                        },
                    ),
                    r,
                )
            } else {
                graph.ensures((vectors, None, top, params, SearchTimer::UnfilteredHnsw), r)
            },
            Some(filter) => filtered_route(
                config,
                vectors,
                filter,
                top,
                params,
                estimate,
                sample,
                plain,
                graph,
                r,
            ),
        }
    }
}

/// Search points for several queries with one filter.
///
/// Without a filter all points are scanned or the graph is searched. With a filter the number of
/// points that it selects decides: `estimate` bounds the number, and `sample` looks at some points
/// when the bounds do not settle the matter. `scan` scans all points, `plain` the points that the
/// filter selects, and `graph` searches the graph.
pub fn search<
    E: Fn(&Filter) -> OperationResult<CardinalityEstimation>,
    S: Fn(&Filter) -> OperationResult<bool>,
    A: Fn(&[&QueryVector], usize, Option<SearchParams>, SearchTimer) -> BatchResult,
    P: Fn(&[&QueryVector], &Filter, usize, Option<SearchParams>, SearchTimer) -> BatchResult,
    G: Fn(&[&QueryVector], Option<&Filter>, usize, Option<SearchParams>, SearchTimer) ->
        BatchResult,
>(
    config: &HnswGraphConfig,
    available_vector_count: usize,
    vectors: &[&QueryVector],
    filter: Option<&Filter>,
    top: usize,
    params: Option<SearchParams>,
    estimate: &E,
    sample: &S,
    scan: &A,
    plain: &P,
    graph: &G,
) -> (r: BatchResult)
    requires
        forall|f: &Filter| #[trigger] estimate.requires((f,)),
        forall|f: &Filter| #[trigger] sample.requires((f,)),
        forall|p: Option<SearchParams>, t: SearchTimer| #[trigger]
            scan.requires((vectors, top, p, t)),
        forall|f: &Filter, p: Option<SearchParams>, t: SearchTimer| #[trigger]
            plain.requires((vectors, f, top, p, t)),
        forall|f: Option<&Filter>, p: Option<SearchParams>, t: SearchTimer| #[trigger]
            graph.requires((vectors, f, top, p, t)),
    ensures
        routed(
            *config,
            available_vector_count,
            vectors,
            filter,
            top,
            params,
            estimate,
            sample,
            scan,
            plain,
            graph,
            r,
        ),
{
    if top == 0 {
        return Ok(empty_results(vectors.len()));
    }
    let is_hnsw_disabled: bool = config.is_disabled();
    let exact: bool = exact_wanted(params);
    let filter = match filter {
        Some(filter) => filter,
        None => {
            if exact || is_hnsw_disabled || available_vector_count < config.full_scan_threshold {
                let timer = if exact {
                    SearchTimer::ExactUnfiltered
                } else {
                    SearchTimer::UnfilteredPlain
                };
                return scan(vectors, top, params_for_plain(params), timer);
            }
            return graph(vectors, None, top, params, SearchTimer::UnfilteredHnsw);
        },
    };
    if exact || is_hnsw_disabled {
        let timer = if exact {
            SearchTimer::ExactFiltered
        } else {
            SearchTimer::FilteredPlain
        };
        return plain(vectors, filter, top, params_for_plain(params), timer);
    }
    let cardinality = match estimate(filter) {
        Ok(cardinality) => cardinality,
        Err(error) => {
            proof {
                let estimated: OperationResult<CardinalityEstimation> = Err(error);
                assert(estimate.ensures((filter,), estimated));
            }
            return Err(error);
        },
    };
    proof {
        let estimated: OperationResult<CardinalityEstimation> = Ok(cardinality);
        assert(estimate.ensures((filter,), estimated));
    }
    if cardinality.max < config.full_scan_threshold {
        return plain(vectors, filter, top, params, SearchTimer::SmallCardinality);
    }
    if cardinality.min > config.full_scan_threshold {
        return graph(vectors, Some(filter), top, params, SearchTimer::LargeCardinality);
    }
    let use_graph = match sample(filter) {
        Ok(use_graph) => use_graph,
        Err(error) => {
            proof {
                let sampled: OperationResult<bool> = Err(error);
                assert(sample.ensures((filter,), sampled));
            }
            return Err(error);
        },
    };
    proof {
        let sampled: OperationResult<bool> = Ok(use_graph);
        assert(sample.ensures((filter,), sampled));
    }
    if use_graph {
        graph(vectors, Some(filter), top, params, SearchTimer::LargeCardinality)
    } else {
        plain(vectors, filter, top, params, SearchTimer::SmallCardinality)
    }
}

/// Two optional filters mean the same.
pub open spec fn same_meaning(a: Option<&Filter>, b: Option<&Filter>) -> bool {
    match (a, b) {
        (Some(a), Some(b)) => a.model() == b.model(),
        (None, None) => true,
        _ => false,
    }
}

fn same_filter(a: Option<&Filter>, b: Option<&Filter>) -> (r: bool)
    ensures
        r == same_meaning(a, b),
{
    match (a, b) {
        (Some(a), Some(b)) => a.same(b),
        (None, None) => true,
        _ => false,
    }
}

/// A search for one query was answered like this.
pub open spec fn searched_one<
    Q: Fn(&[&QueryVector], Option<&Filter>, usize, Option<SearchParams>) -> BatchResult,
>(
    search: &Q,
    vector: &QueryVector,
    filter: Option<&Filter>,
    top: usize,
    params: Option<SearchParams>,
    r: BatchResult,
) -> bool {
    exists|single: &[&QueryVector]|
        single@ == seq![vector] && #[trigger] search.ensures((single, filter, top, params), r)
}

/// The result of a search for one query.
pub open spec fn single_result(
    results: Seq<Vec<ScoredPointOffset>>,
    points: Seq<ScoredPointOffset>,
) -> bool {
    points == if results.len() > 0 {
        results.last()@
    } else {
        Seq::empty()
    }
}

/// The query was searched on its own and got this result.
pub open spec fn found_alone<
    Q: Fn(&[&QueryVector], Option<&Filter>, usize, Option<SearchParams>) -> BatchResult,
>(
    search: &Q,
    vector: &QueryVector,
    filter: Option<&Filter>,
    top: usize,
    params: Option<SearchParams>,
    points: Seq<ScoredPointOffset>,
) -> bool {
    exists|results: Vec<Vec<ScoredPointOffset>>|
        {
            &&& #[trigger] searched_one(search, vector, filter, top, params, Ok(results))
            &&& single_result(results@, points)
        }
}

/// Every query was searched on its own, up to the first error.
pub open spec fn searched_independently<
    Q: Fn(&[&QueryVector], Option<&Filter>, usize, Option<SearchParams>) -> BatchResult,
>(
    search: &Q,
    vectors: Seq<&QueryVector>,
    filters: Seq<Option<&Filter>>,
    top: usize,
    params: Option<SearchParams>,
    r: BatchResult,
) -> bool {
    match r {
        Ok(results) => {
            &&& results@.len() == vectors.len()
            &&& forall|i: int|
                0 <= i < vectors.len() ==> found_alone(
                    search,
                    vectors[i],
                    filters[i],
                    top,
                    params,
                    (#[trigger] results@[i])@,
                )
        },
        Err(error) => exists|i: int|
            {
                &&& 0 <= i < vectors.len()
                &&& #[trigger] searched_one(
                    search,
                    vectors[i],
                    filters[i],
                    top,
                    params,
                    Err(error),
                )
                &&& forall|j: int|
                    0 <= j < i ==> #[trigger] can_search_one(
                        search,
                        vectors[j],
                        filters[j],
                        top,
                        params,
                    )
            },
    }
}

/// The query can be searched on its own.
pub open spec fn can_search_one<
    Q: Fn(&[&QueryVector], Option<&Filter>, usize, Option<SearchParams>) -> BatchResult,
>(
    search: &Q,
    vector: &QueryVector,
    filter: Option<&Filter>,
    top: usize,
    params: Option<SearchParams>,
) -> bool {
    exists|points: Seq<ScoredPointOffset>| #[trigger]
        found_alone(search, vector, filter, top, params, points)
}

/// Search for every query on its own.
fn search_independently<
    Q: Fn(&[&QueryVector], Option<&Filter>, usize, Option<SearchParams>) -> BatchResult,
>(
    search: &Q,
    vectors: &[&QueryVector],
    filters: &[Option<&Filter>],
    top: usize,
    params: Option<SearchParams>,
) -> (r: BatchResult)
    requires
        vectors@.len() == filters@.len(),
        forall|v: &[&QueryVector], f: Option<&Filter>| #[trigger]
            search.requires((v, f, top, params)),
    ensures
        searched_independently(search, vectors@, filters@, top, params, r),
{
    let mut all: Vec<Vec<ScoredPointOffset>> = Vec::new();
    let mut i: usize = 0;
    while i < vectors.len()
        invariant
            i <= vectors@.len() == filters@.len(),
            forall|v: &[&QueryVector], f: Option<&Filter>| #[trigger]
                search.requires((v, f, top, params)),
            all@.len() == i,
            forall|j: int|
                0 <= j < i ==> found_alone(
                    search,
                    vectors@[j],
                    filters@[j],
                    top,
                    params,
                    (#[trigger] all@[j])@,
                ),
        decreases vectors@.len() - i,
    {
        let mut single: Vec<&QueryVector> = Vec::new();
        single.push(vectors[i]);
        let slice = single.as_slice();
        proof {
            assert(slice@ =~= seq![vectors@[i as int]]);
        }
        match search(slice, filters[i], top, params) {
            Ok(results) => {
                proof {
                    assert(search.ensures((slice, filters@[i as int], top, params), Ok(results)));
                    assert(searched_one(
                        search,
                        vectors@[i as int],
                        filters@[i as int],
                        top,
                        params,
                        Ok(results),
                    ));
                }
                let ghost given = results@;
                let mut rest = results;
                let points = match rest.pop() {
                    Some(points) => points,
                    None => Vec::new(),
                };
                proof {
                    assert(points@ =~= if given.len() > 0 {
                        given.last()@
                    } else {
                        Seq::empty()
                    });
                    assert(single_result(results@, points@));
                    assert(found_alone(
                        search,
                        vectors@[i as int],
                        filters@[i as int],
                        top,
                        params,
                        points@,
                    ));
                }
                all.push(points);
            },
            Err(error) => {
                proof {
                    let reply: BatchResult = Err(error);
                    assert(search.ensures((slice, filters@[i as int], top, params), reply));
                    assert(searched_one(
                        search,
                        vectors@[i as int],
                        filters@[i as int],
                        top,
                        params,
                        Err(error),
                    ));
                    assert forall|j: int| 0 <= j < i implies #[trigger] can_search_one(
                        search,
                        vectors@[j],
                        filters@[j],
                        top,
                        params,
                    ) by {
                        assert(found_alone(
                            search,
                            vectors@[j],
                            filters@[j],
                            top,
                            params,
                            all@[j]@,
                        ));
                    }
                }
                return Err(error);
            },
        }
        i = i + 1;
    }
    Ok(all)
}

/// The filters of all queries, when every query has one.
pub open spec fn present_filters(filters: Seq<Option<&Filter>>) -> Option<Seq<Filter>> {
    if forall|i: int| 0 <= i < filters.len() ==> (#[trigger] filters[i]) is Some {
        Some(filters.map_values(|filter: Option<&Filter>| *filter->0))
    } else {
        None
    }
}

/// Every filter selects few points, as far as the estimates go.
pub open spec fn estimated_small<E: Fn(&Filter) -> OperationResult<CardinalityEstimation>>(
    estimate: &E,
    filters: Seq<Filter>,
    threshold: usize,
    r: OperationResult<bool>,
) -> bool {
    match r {
        Ok(true) => small_before(estimate, filters, threshold, filters.len() as int),
        Ok(false) => exists|i: int|
            {
                &&& 0 <= i < filters.len()
                &&& has_estimate(estimate, #[trigger] filters[i], threshold, false)
                &&& small_before(estimate, filters, threshold, i)
            },
        Err(error) => exists|i: int|
            {
                &&& 0 <= i < filters.len()
                &&& estimate.ensures((&#[trigger] filters[i],), Err(error))
                &&& small_before(estimate, filters, threshold, i)
            },
    }
}

/// The first filters select few points, as far as the estimates go.
pub open spec fn small_before<E: Fn(&Filter) -> OperationResult<CardinalityEstimation>>(
    estimate: &E,
    filters: Seq<Filter>,
    threshold: usize,
    end: int,
) -> bool {
    forall|i: int|
        0 <= i < end ==> has_estimate(estimate, #[trigger] filters[i], threshold, true)
}

/// The filter was estimated to select few points, or not.
pub open spec fn has_estimate<E: Fn(&Filter) -> OperationResult<CardinalityEstimation>>(
    estimate: &E,
    filter: Filter,
    threshold: usize,
    small: bool,
) -> bool {
    exists|cardinality: CardinalityEstimation|
        {
            &&& #[trigger] estimate.ensures((&filter,), Ok(cardinality))
            &&& small == (cardinality.max < threshold)
        }
}

fn all_small<E: Fn(&Filter) -> OperationResult<CardinalityEstimation>>(
    estimate: &E,
    filters: &Vec<&Filter>,
    threshold: usize,
) -> (r: OperationResult<bool>)
    requires
        forall|f: &Filter| #[trigger] estimate.requires((f,)),
    ensures
        estimated_small(estimate, filters@.map_values(|f: &Filter| *f), threshold, r),
{
    let ghost values = filters@.map_values(|f: &Filter| *f);
    let mut i: usize = 0;
    while i < filters.len()
        invariant
            i <= filters@.len(),
            values == filters@.map_values(|f: &Filter| *f),
            forall|f: &Filter| #[trigger] estimate.requires((f,)),
            small_before(estimate, values, threshold, i as int),
        decreases filters@.len() - i,
    {
        let filter: &Filter = filters[i];
        proof {
            assert(values[i as int] == *filter);
        }
        match estimate(filter) {
            Ok(cardinality) => {
                proof {
                    assert(estimate.ensures((&values[i as int],), Ok(cardinality)));
                    assert(has_estimate(
                        estimate,
                        values[i as int],
                        threshold,
                        cardinality.max < threshold,
                    ));
                }
                if cardinality.max >= threshold {
                    return Ok(false);
                }
            },
            Err(error) => {
                proof {
                    assert(estimate.ensures((&values[i as int],), Err(error)));
                }
                return Err(error);
            },
        }
        i = i + 1;
    }
    Ok(true)
}

/// How a batch with different filters proceeds once its filters could be factorized.
pub open spec fn factorized_route<
    E: Fn(&Filter) -> OperationResult<CardinalityEstimation>,
    Q: Fn(&[&QueryVector], Option<&Filter>, usize, Option<SearchParams>) -> BatchResult,
    F: Fn(&[&QueryVector], &FactorizedFilterPlan, usize, Option<SearchParams>, SearchTimer) ->
        OperationResult<Option<Vec<Vec<ScoredPointOffset>>>>,
>(
    config: HnswGraphConfig,
    vectors: &[&QueryVector],
    filters: &[Option<&Filter>],
    plan: FactorizedFilterPlan,
    top: usize,
    params: Option<SearchParams>,
    estimate: &E,
    search: &Q,
    factorized: &F,
    r: BatchResult,
) -> bool {
    if vectors@.len() > 1 && total_len(plan.spec_query_atoms()) <= plan.spec_atoms().len() {
        searched_independently(search, vectors@, filters@, top, params, r)
    } else {
        exists|small: OperationResult<bool>|
            {
                &&& #[trigger] plain_decision(
                    config,
                    params,
                    estimate,
                    present_filters(filters@)->0,
                    small,
                )
                &&& match small {
                    Err(error) => r == Err::<Vec<Vec<ScoredPointOffset>>, OperationError>(error),
                    Ok(false) => searched_independently(
                        search,
                        vectors@,
                        filters@,
                        top,
                        params,
                        r,
                    ),
                    Ok(true) => factorized_search(
                        vectors,
                        filters,
                        plan,
                        top,
                        params,
                        search,
                        factorized,
                        r,
                    ),
                }
            }
    }
}

/// All queries of a batch use plain search.
pub open spec fn plain_decision<E: Fn(&Filter) -> OperationResult<CardinalityEstimation>>(
    config: HnswGraphConfig,
    params: Option<SearchParams>,
    estimate: &E,
    filters: Seq<Filter>,
    small: OperationResult<bool>,
) -> bool {
    if is_exact(params) || config.spec_is_disabled() {
        small == Ok::<bool, OperationError>(true)
    } else {
        estimated_small(estimate, filters, config.full_scan_threshold, small)
    }
}

/// What a factorized search is counted as.
pub open spec fn factorized_timer(params: Option<SearchParams>) -> SearchTimer {
    if is_exact(params) {
        SearchTimer::ExactFiltered
    } else {
        SearchTimer::SmallCardinality
    }
}

/// A factorized search, or independent searches when it is not possible.
pub open spec fn factorized_search<
    Q: Fn(&[&QueryVector], Option<&Filter>, usize, Option<SearchParams>) -> BatchResult,
    F: Fn(&[&QueryVector], &FactorizedFilterPlan, usize, Option<SearchParams>, SearchTimer) ->
        OperationResult<Option<Vec<Vec<ScoredPointOffset>>>>,
>(
    vectors: &[&QueryVector],
    filters: &[Option<&Filter>],
    plan: FactorizedFilterPlan,
    top: usize,
    params: Option<SearchParams>,
    search: &Q,
    factorized: &F,
    r: BatchResult,
) -> bool {
    exists|reply: OperationResult<Option<Vec<Vec<ScoredPointOffset>>>>|
        {
            &&& #[trigger] factorized.ensures(
                (
                    vectors,
                    &plan,
                    top,
                    plain_params(params),
                    factorized_timer(params),
                ),
                reply,
            )
            &&& match reply {
                Ok(Some(results)) => r == Ok::<Vec<Vec<ScoredPointOffset>>, OperationError>(
                    results,
                ),
                Ok(None) => searched_independently(search, vectors@, filters@, top, params, r),
                Err(error) => r == Err::<Vec<Vec<ScoredPointOffset>>, OperationError>(error),
            }
        }
}

/// What a search for several queries with a filter for each gives.
pub open spec fn batch_routed<
    E: Fn(&Filter) -> OperationResult<CardinalityEstimation>,
    Q: Fn(&[&QueryVector], Option<&Filter>, usize, Option<SearchParams>) -> BatchResult,
    F: Fn(&[&QueryVector], &FactorizedFilterPlan, usize, Option<SearchParams>, SearchTimer) ->
        OperationResult<Option<Vec<Vec<ScoredPointOffset>>>>,
>(
    config: HnswGraphConfig,
    factorization_enabled: bool,
    vectors: &[&QueryVector],
    filters: &[Option<&Filter>],
    top: usize,
    params: Option<SearchParams>,
    estimate: &E,
    search: &Q,
    factorized: &F,
    r: BatchResult,
) -> bool {
    if vectors@.len() != filters@.len() {
        failed(r, "query vector count differs from filter count"@)
    } else if vectors@.len() == 0 || top == 0 {
        all_empty(r, vectors@.len())
    } else if forall|i: int|
        0 <= i < filters@.len() ==> same_meaning(#[trigger] filters@[i], filters@[0]) {
        search.ensures((vectors, filters@[0], top, params), r)
    } else if !factorization_enabled || present_filters(filters@) is None {
        searched_independently(search, vectors@, filters@, top, params, r)
    } else {
        exists|factorization: Result<FactorizedFilterPlan, FactorizedFilterPlanError>|
            {
                &&& #[trigger] factorization_outcome(
                    present_filters(filters@)->0,
                    factorization,
                )
                &&& match factorization {
                    Err(_) => searched_independently(
                        search,
                        vectors@,
                        filters@,
                        top,
                        params,
                        r,
                    ),
                    Ok(plan) => factorized_route(
                        config,
                        vectors,
                        filters,
                        plan,
                        top,
                        params,
                        estimate,
                        search,
                        factorized,
                        r,
                    ),
                }
            }
    }
}

/// Search points for several queries with a filter for each.
///
/// Queries with the same filter are searched together. Queries with different filters are searched
/// together when their filters can be factorized, the factorization saves work, and all of them
/// use plain search. In all other cases every query is searched on its own.
pub fn search_batch_with_filters<
    E: Fn(&Filter) -> OperationResult<CardinalityEstimation>,
    Q: Fn(&[&QueryVector], Option<&Filter>, usize, Option<SearchParams>) -> BatchResult,
    F: Fn(&[&QueryVector], &FactorizedFilterPlan, usize, Option<SearchParams>, SearchTimer) ->
        OperationResult<Option<Vec<Vec<ScoredPointOffset>>>>,
>(
    config: &HnswGraphConfig,
    factorization_enabled: bool,
    vectors: &[&QueryVector],
    filters: &[Option<&Filter>],
    top: usize,
    params: Option<SearchParams>,
    estimate: &E,
    search: &Q,
    factorized: &F,
) -> (r: BatchResult)
    requires
        forall|f: &Filter| #[trigger] estimate.requires((f,)),
        forall|v: &[&QueryVector], f: Option<&Filter>| #[trigger]
            search.requires((v, f, top, params)),
        forall|plan: &FactorizedFilterPlan, p: Option<SearchParams>, t: SearchTimer| #[trigger]
            factorized.requires((vectors, plan, top, p, t)),
    ensures
        batch_routed(
            *config,
            factorization_enabled,
            vectors,
            filters,
            top,
            params,
            estimate,
            search,
            factorized,
            r,
        ),
{
    if vectors.len() != filters.len() {
        return Err(
            OperationError::service_error("query vector count differs from filter count"),
        );
    }
    if vectors.len() == 0 || top == 0 {
        return Ok(empty_results(vectors.len()));
    }
    let first_filter = filters[0];
    let mut same: bool = true;
    let mut i: usize = 0;
    while i < filters.len()
        invariant
            i <= filters@.len(),
            filters@.len() > 0,
            first_filter == filters@[0],
            same == (forall|j: int|
                0 <= j < i ==> same_meaning(#[trigger] filters@[j], filters@[0])),
        decreases filters@.len() - i,
    {
        if !same_filter(filters[i], first_filter) {
            same = false;
        }
        i = i + 1;
    }
    if same {
        return search(vectors, first_filter, top, params);
    }
    if !factorization_enabled {
        return search_independently(search, vectors, filters, top, params);
    }
    let mut filter_refs: Vec<&Filter> = Vec::new();
    let mut k: usize = 0;
    while k < filters.len()
        invariant
            k <= filters@.len() == vectors@.len(),
            vectors@.len() > 0,
            top > 0,
            !(forall|j: int|
                0 <= j < filters@.len() ==> same_meaning(#[trigger] filters@[j], filters@[0])),
            forall|v: &[&QueryVector], f: Option<&Filter>| #[trigger]
                search.requires((v, f, top, params)),
            filter_refs@.len() == k,
            forall|j: int|
                0 <= j < k ==> (#[trigger] filters@[j]) is Some && filters@[j]->0
                    == filter_refs@[j],
        decreases filters@.len() - k,
    {
        match filters[k] {
            Some(filter) => {
                filter_refs.push(filter);
            },
            None => {
                proof {
                    assert(filters@[k as int] is None);
                    assert(present_filters(filters@) is None);
                }
                return search_independently(search, vectors, filters, top, params);
            },
        }
        k = k + 1;
    }
    let ghost values = filter_refs@.map_values(|f: &Filter| *f);
    proof {
        assert(values =~= present_filters(filters@)->0);
    }
    let factorization = FactorizedFilterPlan::try_from_filter_refs(filter_refs.as_slice());
    proof {
        assert(factorization_outcome(present_filters(filters@)->0, factorization));
    }
    let plan = match factorization {
        Ok(plan) => plan,
        Err(_) => {
            return search_independently(search, vectors, filters, top, params);
        },
    };
    if vectors.len() > 1 && !plan.shares_atoms() {
        return search_independently(search, vectors, filters, top, params);
    }
    let exact: bool = exact_wanted(params);
    let small: OperationResult<bool> = if exact || config.is_disabled() {
        Ok(true)
    } else {
        all_small(estimate, &filter_refs, config.full_scan_threshold)
    };
    proof {
        assert(plain_decision(
            *config,
            params,
            estimate,
            present_filters(filters@)->0,
            small,
        ));
    }
    match small {
        Ok(true) => {},
        Ok(false) => {
            return search_independently(search, vectors, filters, top, params);
        },
        Err(error) => {
            return Err(error);
        },
    }
    let timer = if exact {
        SearchTimer::ExactFiltered
    } else {
        SearchTimer::SmallCardinality
    };
    let reply = factorized(vectors, &plan, top, params_for_plain(params), timer);
    proof {
        assert(factorized.ensures((vectors, &plan, top, plain_params(params), timer), reply));
    }
    match reply {
        Ok(Some(results)) => Ok(results),
        Ok(None) => search_independently(search, vectors, filters, top, params),
        Err(error) => Err(error),
    }
}

/// A search gives one list per query, when it gives any.
pub open spec fn one_list_each(vectors: Seq<&QueryVector>, r: BatchResult) -> bool {
    r matches Ok(results) ==> results@.len() == vectors.len()
}

/// Where the searches that it chooses from give one list per query, so does a search with one
/// filter.
pub proof fn lemma_search_gives_one_list_each<
    E: Fn(&Filter) -> OperationResult<CardinalityEstimation>,
    S: Fn(&Filter) -> OperationResult<bool>,
    A: Fn(&[&QueryVector], usize, Option<SearchParams>, SearchTimer) -> BatchResult,
    P: Fn(&[&QueryVector], &Filter, usize, Option<SearchParams>, SearchTimer) -> BatchResult,
    G: Fn(&[&QueryVector], Option<&Filter>, usize, Option<SearchParams>, SearchTimer) ->
        BatchResult,
>(
    config: HnswGraphConfig,
    available_vector_count: usize,
    vectors: &[&QueryVector],
    filter: Option<&Filter>,
    top: usize,
    params: Option<SearchParams>,
    estimate: &E,
    sample: &S,
    scan: &A,
    plain: &P,
    graph: &G,
    r: BatchResult,
)
    requires
        routed(
            config,
            available_vector_count,
            vectors,
            filter,
            top,
            params,
            estimate,
            sample,
            scan,
            plain,
            graph,
            r,
        ),
        forall|p: Option<SearchParams>, t: SearchTimer, found: BatchResult| #[trigger]
            scan.ensures((vectors, top, p, t), found) ==> one_list_each(vectors@, found),
        forall|f: &Filter, p: Option<SearchParams>, t: SearchTimer, found: BatchResult| #[trigger]
            plain.ensures((vectors, f, top, p, t), found) ==> one_list_each(vectors@, found),
        forall|f: Option<&Filter>, p: Option<SearchParams>, t: SearchTimer, found: BatchResult|
            #[trigger]
            graph.ensures((vectors, f, top, p, t), found) ==> one_list_each(vectors@, found),
    ensures
        one_list_each(vectors@, r),
        top == 0 ==> all_empty(r, vectors@.len()),
{
}

/// The query got the only list of a search for it alone.
pub open spec fn got_its_own_list<
    Q: Fn(&[&QueryVector], Option<&Filter>, usize, Option<SearchParams>) -> BatchResult,
>(
    search: &Q,
    vector: &QueryVector,
    filter: Option<&Filter>,
    top: usize,
    params: Option<SearchParams>,
    points: Seq<ScoredPointOffset>,
) -> bool {
    exists|results: Vec<Vec<ScoredPointOffset>>|
        {
            &&& #[trigger] searched_one(search, vector, filter, top, params, Ok(results))
            &&& results@.len() == 1
            &&& results@[0]@ == points
        }
}

/// Independent searches give every query the only list of its own search, in order.
pub proof fn lemma_independent_lists<
    Q: Fn(&[&QueryVector], Option<&Filter>, usize, Option<SearchParams>) -> BatchResult,
>(
    search: &Q,
    vectors: Seq<&QueryVector>,
    filters: Seq<Option<&Filter>>,
    top: usize,
    params: Option<SearchParams>,
    results: Vec<Vec<ScoredPointOffset>>,
)
    requires
        searched_independently(search, vectors, filters, top, params, Ok(results)),
        forall|v: &[&QueryVector], f: Option<&Filter>, found: BatchResult| #[trigger]
            search.ensures((v, f, top, params), found) ==> one_list_each(v@, found),
    ensures
        results@.len() == vectors.len(),
        forall|i: int|
            0 <= i < vectors.len() ==> got_its_own_list(
                search,
                vectors[i],
                filters[i],
                top,
                params,
                (#[trigger] results@[i])@,
            ),
{
    assert forall|i: int| 0 <= i < vectors.len() implies got_its_own_list(
        search,
        vectors[i],
        filters[i],
        top,
        params,
        (#[trigger] results@[i])@,
    ) by {
        assert(found_alone(search, vectors[i], filters[i], top, params, results@[i]@));
        let found = choose|found: Vec<Vec<ScoredPointOffset>>|
            {
                &&& #[trigger] searched_one(
                    search,
                    vectors[i],
                    filters[i],
                    top,
                    params,
                    Ok(found),
                )
                &&& single_result(found@, results@[i]@)
            };
        let single = choose|single: &[&QueryVector]|
            single@ == seq![vectors[i]] && #[trigger] search.ensures(
                (single, filters[i], top, params),
                Ok(found),
            );
        assert(one_list_each(single@, Ok(found)));
        assert(found@.len() == 1);
    }
}

/// Every query is searched on its own: the filters differ, and one is missing, they have no plan,
/// or no value is used by two of several queries.
pub open spec fn goes_alone(
    factorization_enabled: bool,
    vectors: Seq<&QueryVector>,
    filters: Seq<Option<&Filter>>,
) -> bool {
    &&& exists|i: int| 0 <= i < filters.len() && !same_meaning(#[trigger] filters[i], filters[0])
    &&& {
        ||| !factorization_enabled
        ||| present_filters(filters) is None
        ||| forall|plan: FactorizedFilterPlan| #[trigger]
            factorization_outcome(present_filters(filters)->0, Ok(plan)) ==> vectors.len() > 1
                && total_len(plan.spec_query_atoms()) <= plan.spec_atoms().len()
    }
}

/// Where the searches that it chooses from give one list per query, so does a search with a filter
/// for each query. Where queries go alone, each gets the only list of its own search.
pub proof fn lemma_batch_gives_one_list_each<
    E: Fn(&Filter) -> OperationResult<CardinalityEstimation>,
    Q: Fn(&[&QueryVector], Option<&Filter>, usize, Option<SearchParams>) -> BatchResult,
    F: Fn(&[&QueryVector], &FactorizedFilterPlan, usize, Option<SearchParams>, SearchTimer) ->
        OperationResult<Option<Vec<Vec<ScoredPointOffset>>>>,
>(
    config: HnswGraphConfig,
    factorization_enabled: bool,
    vectors: &[&QueryVector],
    filters: &[Option<&Filter>],
    top: usize,
    params: Option<SearchParams>,
    estimate: &E,
    search: &Q,
    factorized: &F,
    r: BatchResult,
)
    requires
        batch_routed(
            config,
            factorization_enabled,
            vectors,
            filters,
            top,
            params,
            estimate,
            search,
            factorized,
            r,
        ),
        forall|v: &[&QueryVector], f: Option<&Filter>, found: BatchResult| #[trigger]
            search.ensures((v, f, top, params), found) ==> one_list_each(v@, found),
        forall|
            plan: &FactorizedFilterPlan,
            p: Option<SearchParams>,
            t: SearchTimer,
            found: Vec<Vec<ScoredPointOffset>>,
        | #[trigger]
            factorized.ensures((vectors, plan, top, p, t), Ok(Some(found))) ==> found@.len()
                == vectors@.len(),
    ensures
        vectors@.len() != filters@.len() ==> r is Err,
        one_list_each(vectors@, r),
        vectors@.len() == filters@.len() && top == 0 ==> all_empty(r, vectors@.len()),
        r matches Ok(results) ==> top > 0 && goes_alone(
            factorization_enabled,
            vectors@,
            filters@,
        ) ==> forall|i: int|
            0 <= i < vectors@.len() ==> got_its_own_list(
                search,
                vectors@[i],
                filters@[i],
                top,
                params,
                (#[trigger] results@[i])@,
            ),
{
    if r is Ok {
        let results = r->Ok_0;
        if searched_independently(search, vectors@, filters@, top, params, r) {
            lemma_independent_lists(search, vectors@, filters@, top, params, results);
        }
    }
}

} // verus!
