use std::cell::{Cell, RefCell};
use std::sync::Arc;

use vector_segment::error::{OperationError, OperationResult};
use vector_segment::factorized_filter::FactorizedFilterPlan;
use vector_segment::filter::{AnyVariants, Condition, FieldCondition, Filter, Match};
use vector_segment::gpu::filter_cache::GpuFilterCandidateCache;
use vector_segment::gpu::resident::SharedCandidates;
use vector_segment::gpu::visibility::GpuVisibilitySnapshot;
use vector_segment::hnsw::filters::gpu_filter_cacheable;
use vector_segment::hnsw::graph_search::{
    choose_algorithm, search_vectors_with_graph, search_with_graph, visibility_snapshot,
    GraphSearchState, QueryDeletions, SearchAlgorithm,
};
use vector_segment::hnsw::index::{
    factorized_filter_batch_enabled, gpu_exact_search_cache, gpu_filtered_graph_search_cache,
    update_vector, HnswSearchesTelemetry, OnceSlot,
};
use vector_segment::hnsw::params::{
    params_for_plain, AcornSearchParams, CardinalityEstimation, GpuSearchConfig, HnswGraphConfig,
    QuantizationSearchParams, SearchParams, SearchTimer,
};
use vector_segment::hnsw::plain_search::{
    search_plain_batched, search_plain_gpu_exact, search_plain_unfiltered_batched,
    search_vectors_plain, ExactSearchState,
};
use vector_segment::hnsw::routing::{search, search_batch_with_filters};
use vector_segment::storage::{ContextPair, DiscoverQuery, QueryVector, VectorInternal};
use vector_segment::types::ScoredPointOffset;

type Lists = OperationResult<Vec<Vec<ScoredPointOffset>>>;

fn config() -> HnswGraphConfig {
    HnswGraphConfig {
        m: 16,
        m0: 32,
        ef: 100,
        full_scan_threshold: 50,
        payload_m: None,
        indexed_vector_count: None,
    }
}

fn params() -> SearchParams {
    SearchParams {
        hnsw_ef: None,
        exact: false,
        quantization: None,
        acorn: None,
    }
}

fn exact_params() -> SearchParams {
    SearchParams {
        exact: true,
        ..params()
    }
}

fn gpu() -> GpuSearchConfig {
    GpuSearchConfig {
        enabled: true,
        router_enabled: true,
        min_candidates: 2,
        max_candidates: 1000,
        graph_min_candidates: 10,
    }
}

fn estimate(min: usize, max: usize) -> CardinalityEstimation {
    CardinalityEstimation {
        min,
        exp: (min + max) / 2,
        max,
    }
}

fn any_filter(values: Vec<i64>) -> Filter {
    Filter::new_must(Condition::Field(FieldCondition::new_match(
        "group_id".to_owned(),
        Match::Any(AnyVariants::Integers(values)),
    )))
}

fn dense(value: u32) -> QueryVector {
    QueryVector::Nearest(VectorInternal::Dense(vec![value]))
}

fn point(idx: u32, score: i32) -> ScoredPointOffset {
    ScoredPointOffset { idx, score }
}

fn broken() -> OperationError {
    OperationError::service_error("broken")
}

fn text<T>(result: OperationResult<T>) -> String {
    match result {
        Err(OperationError::ServiceError { description }) => description,
        _ => panic!("an error was expected"),
    }
}

/// Runs a search and tells which way it took.
fn route(
    config: &HnswGraphConfig,
    filter: Option<&Filter>,
    params: Option<SearchParams>,
    available: usize,
    estimated: CardinalityEstimation,
    sampled: bool,
) -> (&'static str, SearchTimer, Option<SearchParams>) {
    let query = dense(1);
    let way = RefCell::new(None);
    let take = |name, timer, params| -> Lists {
        *way.borrow_mut() = Some((name, timer, params));
        Ok(Vec::new())
    };
    search(
        config,
        available,
        &[&query],
        filter,
        3,
        params,
        &|_: &Filter| Ok(estimated),
        &|_: &Filter| Ok(sampled),
        &|_: &[&QueryVector], _, params, timer| take("scan", timer, params),
        &|_: &[&QueryVector], _: &Filter, _, params, timer| take("plain", timer, params),
        &|_: &[&QueryVector], _: Option<&Filter>, _, params, timer| take("graph", timer, params),
    )
    .unwrap();
    way.into_inner().unwrap()
}

#[test]
fn the_size_of_the_selection_decides_how_to_search() {
    let filter = any_filter(vec![1]);
    let all = estimate(0, 0);
    assert_eq!(
        route(&config(), None, None, 50, all, false),
        ("graph", SearchTimer::UnfilteredHnsw, None)
    );
    assert_eq!(
        route(&config(), None, None, 49, all, false),
        ("scan", SearchTimer::UnfilteredPlain, None)
    );
    let without_quantization = SearchParams {
        quantization: Some(QuantizationSearchParams {
            ignore: true,
            rescore: Some(false),
            oversampling: None,
        }),
        ..exact_params()
    };
    assert_eq!(params_for_plain(Some(exact_params())), Some(without_quantization));
    assert_eq!(
        route(&config(), None, Some(exact_params()), 500, all, false),
        ("scan", SearchTimer::ExactUnfiltered, Some(without_quantization))
    );
    assert_eq!(
        route(&config(), Some(&filter), Some(exact_params()), 500, all, false),
        ("plain", SearchTimer::ExactFiltered, Some(without_quantization))
    );
    let disabled = HnswGraphConfig { m: 0, payload_m: Some(0), ..config() };
    assert!(disabled.is_disabled());
    assert_eq!(
        route(&disabled, Some(&filter), Some(params()), 500, all, false),
        ("plain", SearchTimer::FilteredPlain, Some(params()))
    );
    assert!(!HnswGraphConfig { m: 0, payload_m: Some(4), ..config() }.is_disabled());
    let filtered = |min, max, sampled| {
        route(&config(), Some(&filter), None, 500, estimate(min, max), sampled)
    };
    assert_eq!(filtered(0, 49, true), ("plain", SearchTimer::SmallCardinality, None));
    assert_eq!(filtered(51, 90, false), ("graph", SearchTimer::LargeCardinality, None));
    assert_eq!(filtered(50, 90, true), ("graph", SearchTimer::LargeCardinality, None));
    assert_eq!(filtered(50, 50, false), ("plain", SearchTimer::SmallCardinality, None));
}

#[test]
fn nothing_is_searched_for_no_results() {
    let query = dense(1);
    let none = |_: &[&QueryVector], _: Option<&Filter>, _, _, _| -> Lists { panic!() };
    let results = search(
        &config(),
        500,
        &[&query, &query],
        None,
        0,
        None,
        &|_: &Filter| Err(broken()),
        &|_: &Filter| Err(broken()),
        &|_: &[&QueryVector], _, _, _| Err(broken()),
        &|_: &[&QueryVector], _: &Filter, _, _, _| Err(broken()),
        &none,
    )
    .unwrap();
    assert_eq!(results, vec![vec![], vec![]]);
}

/// Runs a batch and tells what was searched together.
fn batch(
    enabled: bool,
    filters: &[Option<&Filter>],
    params: Option<SearchParams>,
    estimated: usize,
    factorizes: bool,
) -> (Vec<usize>, bool, Lists) {
    let queries: Vec<QueryVector> = (0..filters.len()).map(|i| dense(i as u32)).collect();
    let refs: Vec<&QueryVector> = queries.iter().collect();
    let sizes = RefCell::new(Vec::new());
    let factorized = RefCell::new(false);
    let results = search_batch_with_filters(
        &config(),
        enabled,
        &refs,
        filters,
        3,
        params,
        &|_: &Filter| Ok(estimate(0, estimated)),
        &|vectors: &[&QueryVector], _: Option<&Filter>, _, _| {
            sizes.borrow_mut().push(vectors.len());
            Ok(vec![vec![point(sizes.borrow().len() as u32, 1)]; vectors.len()])
        },
        &|_: &[&QueryVector], plan: &FactorizedFilterPlan, _, _, _| {
            assert_eq!(plan.query_count(), filters.len());
            *factorized.borrow_mut() = true;
            Ok(if factorizes {
                Some(vec![vec![point(99, 9)]; filters.len()])
            } else {
                None
            })
        },
    );
    (sizes.into_inner(), factorized.into_inner(), results)
}

#[test]
fn batches_are_searched_together_where_that_saves_work() {
    let (a, b, c) = (any_filter(vec![1, 2]), any_filter(vec![2, 3]), any_filter(vec![7]));
    let same = any_filter(vec![1, 2]);
    assert_eq!(batch(true, &[Some(&a), Some(&same)], None, 10, true).0, vec![2]);
    assert_eq!(batch(true, &[None, None], None, 10, true).0, vec![2]);

    let (alone, factorized, results) = batch(true, &[Some(&a), Some(&b)], None, 10, true);
    assert!(alone.is_empty() && factorized);
    assert_eq!(results.unwrap()[1][0].idx, 99);

    let (alone, factorized, results) = batch(true, &[Some(&a), Some(&b)], None, 10, false);
    assert_eq!((alone, factorized), (vec![1, 1], true));
    assert_eq!(results.unwrap()[1][0].idx, 2);

    // Nothing is shared, a filter is missing, a selection is large, or the switch is off.
    for (enabled, filters, estimated) in [
        (true, [Some(&a), Some(&c)], 10),
        (true, [Some(&a), None], 10),
        (true, [Some(&a), Some(&b)], 50),
        (false, [Some(&a), Some(&b)], 10),
    ] {
        let (alone, factorized, results) = batch(enabled, &filters, None, estimated, true);
        assert_eq!((alone, factorized), (vec![1, 1], false));
        // Every query gets the list of its own search.
        assert_eq!(results.unwrap(), vec![vec![point(1, 1)], vec![point(2, 1)]]);
    }
    let (_, factorized, _) =
        batch(true, &[Some(&a), Some(&b)], Some(exact_params()), 50, true);
    assert!(factorized);

    let query = dense(1);
    let refused = search_batch_with_filters(
        &config(),
        true,
        &[&query],
        &[],
        3,
        None,
        &|_: &Filter| Err(broken()),
        &|_: &[&QueryVector], _: Option<&Filter>, _, _| Err(broken()),
        &|_: &[&QueryVector], _: &FactorizedFilterPlan, _, _, _| Err(broken()),
    );
    assert_eq!(text(refused), "query vector count differs from filter count");
}

#[test]
fn the_second_algorithm_is_for_selective_filters() {
    let filter = any_filter(vec![1]);
    let acorn = Some(SearchParams {
        acorn: Some(AcornSearchParams {
            enable: true,
            max_selectivity: None,
        }),
        ..params()
    });
    let selective = |part: usize, whole: usize, _: Option<u64>| part * 10 <= whole * 4;
    let choose = |config: &HnswGraphConfig, count, filter, params, exp| {
        choose_algorithm(
            config,
            count,
            filter,
            params,
            &|_: &Filter| Ok(estimate(exp, exp)),
            &selective,
        )
        .unwrap()
    };
    let some = Some(&filter);
    assert_eq!(choose(&config(), 10, some, acorn, 4), SearchAlgorithm::Acorn);
    assert_eq!(choose(&config(), 10, some, acorn, 5), SearchAlgorithm::Hnsw);
    assert_eq!(choose(&config(), 0, some, acorn, 0), SearchAlgorithm::Hnsw);
    assert_eq!(choose(&config(), 10, None, acorn, 4), SearchAlgorithm::Hnsw);
    assert_eq!(choose(&config(), 10, some, None, 4), SearchAlgorithm::Hnsw);
    let no_links = HnswGraphConfig { m0: 0, ..config() };
    assert_eq!(choose(&no_links, 10, some, acorn, 4), SearchAlgorithm::Hnsw);
}

fn state() -> GraphSearchState {
    GraphSearchState {
        available_vector_count: 100,
        total_vector_count: 100,
        deleted_point_count: 0,
        deleted_vector_count: 0,
        payload_appendable: false,
        payload_epoch: 1,
        has_inline_vectors: false,
        quantized_search: false,
        oversampled_top: 7,
    }
}

/// Runs a graph search and tells what ran.
fn graph_search(
    state: &GraphSearchState,
    cache: &mut GpuFilterCandidateCache,
    filter: Option<&Filter>,
    entries: Option<&[u32]>,
    device: OperationResult<Option<u32>>,
) -> Vec<String> {
    let query = dense(1);
    let log = RefCell::new(Vec::new());
    let note = |what: String| log.borrow_mut().push(what);
    let device = RefCell::new(Some(device));
    search_with_graph(
        &config(),
        &gpu(),
        state,
        cache,
        &query,
        filter,
        3,
        None,
        entries,
        QueryDeletions {
            deleted_points: None,
            generation: None,
        },
        &|_: &Filter| Ok(estimate(10, 20)),
        &|_, _, _| false,
        &|_: &Filter, _| {
            note("collect".to_owned());
            Ok(vec![1, 2, 3])
        },
        &|_: &Filter| Ok(Some(point(5, 0))),
        &|query: &Vec<u32>, entry, list: Arc<Vec<u32>>, _, top, ef| {
            note(format!("device {query:?} {entry} {list:?} {top} {ef}"));
            match device.borrow_mut().take().unwrap() {
                Ok(idx) => Ok(idx.map(|idx| vec![point(idx, 1)])),
                Err(error) => Err(error),
            }
        },
        &|top, ef, _| {
            note(format!("vectors {top} {ef}"));
            Ok(None)
        },
        &|top, ef, algorithm, entries| {
            note(format!("regular {top} {ef} {algorithm:?} {entries:?}"));
            Ok(vec![point(8, 1)])
        },
        &|points: Vec<ScoredPointOffset>, top| {
            note(format!("postprocess {} {top}", points[0].idx));
            Ok(points)
        },
    )
    .unwrap();
    log.into_inner()
}

#[test]
fn the_device_is_tried_first_and_then_the_graph() {
    let filter = any_filter(vec![1]);
    let mut cache = GpuFilterCandidateCache::default();
    assert_eq!(
        graph_search(&state(), &mut cache, Some(&filter), None, Ok(Some(4))),
        vec!["collect", "device [1] 5 [1, 2, 3] 7 100", "postprocess 4 3"]
    );
    // The selection is kept, and a failure of the device is no failure of the search.
    assert_eq!(
        graph_search(&state(), &mut cache, Some(&filter), None, Err(broken())),
        vec![
            "device [1] 5 [1, 2, 3] 7 100",
            "regular 7 100 Hnsw None",
            "postprocess 8 3"
        ]
    );
    let regular = |entries: &str| {
        vec![format!("regular 7 100 Hnsw {entries}"), "postprocess 8 3".to_owned()]
    };
    assert_eq!(graph_search(&state(), &mut cache, None, None, Ok(None)), regular("None"));
    assert_eq!(
        graph_search(&state(), &mut cache, Some(&filter), Some(&[9]), Ok(None)),
        regular("Some([9])")
    );
    for changed in [
        GraphSearchState { payload_appendable: true, ..state() },
        GraphSearchState { deleted_point_count: 1, ..state() },
        GraphSearchState { deleted_vector_count: 1, ..state() },
    ] {
        assert_eq!(
            graph_search(&changed, &mut cache, Some(&filter), None, Ok(None)),
            regular("None")
        );
    }
    let inline = GraphSearchState {
        has_inline_vectors: true,
        quantized_search: true,
        oversampled_top: 200,
        ..state()
    };
    assert_eq!(
        graph_search(&inline, &mut cache, None, None, Ok(None)),
        vec!["vectors 3 200", "regular 200 100 Hnsw None", "postprocess 8 3"]
    );
}

#[test]
fn only_named_deletions_that_fit_reach_the_device() {
    let deleted = [true, false];
    let snapshot = |generation, count| {
        visibility_snapshot(
            QueryDeletions {
                deleted_points: Some(&deleted),
                generation,
            },
            count,
        )
        .is_some()
    };
    assert!(snapshot(Some(1), 2));
    assert!(!snapshot(Some(0), 2));
    assert!(!snapshot(Some(1), 1));
    assert!(!snapshot(None, 2));
}

#[test]
fn discovery_starts_at_the_best_points_of_the_context() {
    let vector = |value: u32| VectorInternal::Dense(vec![value]);
    let discover = QueryVector::Discover(DiscoverQuery {
        target: vector(1),
        pairs: vec![ContextPair {
            positive: vector(2),
            negative: vector(3),
        }],
    });
    let plain = dense(4);
    let log = RefCell::new(Vec::new());
    let results = search_vectors_with_graph(
        &|query: &QueryVector, _: Option<&Filter>, top, _, entries: Option<&[u32]>| {
            log.borrow_mut().push(format!("{query:?} {top} {entries:?}"));
            Ok(vec![point(5, 2), point(6, 1)])
        },
        &[&discover, &plain],
        None,
        3,
        None,
    )
    .unwrap();
    assert_eq!(results.len(), 2);
    let log = log.into_inner();
    assert_eq!(log.len(), 3);
    assert!(log[0].starts_with("Context(") && log[0].ends_with("10 None"));
    assert!(log[1].starts_with("Discover(") && log[1].ends_with("3 Some([5, 6])"));
    assert!(log[2].starts_with("Nearest(") && log[2].ends_with("3 None"));

    let failed = search_vectors_with_graph(
        &|_: &QueryVector, _: Option<&Filter>, _, _, _: Option<&[u32]>| Err(broken()),
        &[&plain],
        None,
        3,
        None,
    );
    assert_eq!(text(failed), "broken");
}

#[test]
fn plain_search_scores_again() {
    let (a, b) = (dense(1), dense(2));
    let peek = |vectors: &[&QueryVector], points: &[u32], top: usize| -> Lists {
        assert_eq!((points, top), (&[3, 4][..], 9));
        Ok(vec![vec![point(points[0], 1), point(points[1], 2)]; vectors.len()])
    };
    let postprocess = |points: Vec<ScoredPointOffset>, query: &QueryVector, top: usize| {
        assert_eq!(top, 1);
        match query {
            QueryVector::Nearest(VectorInternal::Dense(elements)) if elements[0] == 1 => {
                Ok(points[..1].to_vec())
            }
            _ => Ok(points[1..].to_vec()),
        }
    };
    let expected = vec![vec![point(3, 1)], vec![point(4, 2)]];
    let results = search_plain_batched(&[&a, &b], &[3, 4], 9, 1, &peek, &postprocess).unwrap();
    assert_eq!(results, expected);
    let results =
        search_plain_unfiltered_batched(&[&a, &b], 9, 1, &|| vec![3, 4], &peek, &postprocess)
            .unwrap();
    assert_eq!(results, expected);
}

#[test]
fn selections_of_plain_searches_are_kept() {
    let query = dense(1);
    let filter = any_filter(vec![1]);
    let mut cache = GpuFilterCandidateCache::default();
    let log = RefCell::new(Vec::new());
    let mut run = |max: usize, appendable: bool, answered: bool| {
        log.borrow_mut().clear();
        search_vectors_plain(
            &gpu(),
            appendable,
            4,
            &mut cache,
            &[&query],
            &filter,
            3,
            None,
            &|_: &Filter| Ok(estimate(0, max)),
            &|_: &Filter, _| {
                log.borrow_mut().push("collect".to_owned());
                Ok(vec![1, 2])
            },
            &|_: &[&QueryVector], list: &Arc<Vec<u32>>, _, _, _, hit| {
                log.borrow_mut().push(format!("exact {list:?} {hit:?}"));
                if answered {
                    Ok(Some(vec![vec![point(1, 1)]]))
                } else {
                    Err(broken())
                }
            },
            &|_: &[&QueryVector], points: &[u32], _, _| {
                log.borrow_mut().push(format!("plain {points:?}"));
                Ok(vec![vec![point(2, 2)]])
            },
            &|| 0,
        )
        .unwrap();
        log.borrow().clone()
    };
    assert_eq!(run(1, false, true), vec!["collect", "exact [1, 2] None"]);
    assert_eq!(run(5, true, true), vec!["collect", "exact [1, 2] None"]);
    assert_eq!(run(5, false, true), vec!["collect", "exact [1, 2] Some(false)"]);
    assert_eq!(
        run(5, false, false),
        vec!["exact [1, 2] Some(true)", "plain [1, 2]"]
    );
}

/// Runs an exact search and tells what reached the device.
fn exact_search(
    count: usize,
    params: Option<SearchParams>,
    deletions: QueryDeletions,
    hit: Option<bool>,
    candidates: usize,
) -> Option<Vec<String>> {
    let queries: Vec<QueryVector> = (0..count).map(|i| dense(i as u32)).collect();
    let refs: Vec<&QueryVector> = queries.iter().collect();
    let deleted_points = vec![false; 100];
    let mut deleted_vectors = vec![false; 100];
    deleted_vectors[2] = true;
    let log = RefCell::new(Vec::new());
    let note = |queries: usize,
                list: &SharedCandidates,
                reuse: bool,
                snapshot: Option<GpuVisibilitySnapshot>| {
        log.borrow_mut().push(format!(
            "{queries} {}@{} {reuse} {}",
            list.points.len(),
            list.address,
            snapshot.is_some()
        ));
    };
    let ticks = Cell::new(0u64);
    let records = Cell::new(0);
    let outcome = search_plain_gpu_exact(
        &gpu(),
        &ExactSearchState {
            total_vector_count: 100,
            deleted_point_count: 0,
            deleted_vector_count: 1,
            deleted_points: &deleted_points,
            deleted_vectors: &deleted_vectors,
        },
        &refs,
        &SharedCandidates {
            address: 8,
            points: Arc::new((0..candidates as u32).collect()),
        },
        2,
        params,
        deletions,
        50,
        hit,
        &|| true,
        &|_: &[u32], list: &SharedCandidates, _, reuse, snapshot| {
            note(1, list, reuse, snapshot);
            Ok(Some(vec![point(1, 1)]))
        },
        &|queries: &[&[u32]], list: &SharedCandidates, _, reuse, snapshot| {
            note(queries.len(), list, reuse, snapshot);
            Ok(Some(vec![vec![point(1, 1)]; queries.len()]))
        },
        &|points: Vec<ScoredPointOffset>, _: &QueryVector, _| Ok(points),
        &|| {
            ticks.set(ticks.get() + 7);
            ticks.get()
        },
        &|queries, predicate_ns, visibility_ns, cache_ns, postprocess_ns, filter_cache_hit| {
            assert_eq!(queries, count);
            assert_eq!(
                [predicate_ns, visibility_ns, cache_ns, postprocess_ns],
                [50, 7, 7, 7]
            );
            assert_eq!(filter_cache_hit, hit);
            records.set(records.get() + 1);
        },
    )
    .unwrap();
    assert_eq!(records.get(), if outcome.is_some() { 1 } else { 0 });
    outcome.map(|results| {
        assert_eq!(results.len(), count);
        log.into_inner()
    })
}

#[test]
fn the_device_scores_live_candidates() {
    let none = QueryDeletions {
        deleted_points: None,
        generation: None,
    };
    let flags = vec![false; 50];
    let named = QueryDeletions {
        deleted_points: Some(&flags),
        generation: Some(3),
    };
    let exact = Some(exact_params());
    assert_eq!(exact_search(1, exact, none, Some(true), 10).unwrap(), vec!["1 9@0 false false"]);
    assert_eq!(exact_search(1, exact, named, Some(true), 10).unwrap(), vec!["1 10@8 true true"]);
    assert_eq!(exact_search(1, exact, named, None, 10).unwrap(), vec!["1 9@0 false true"]);
    assert_eq!(
        exact_search(3, exact, named, Some(true), 10).unwrap(),
        vec!["1 10@8 true true"; 3]
    );
    assert!(exact_search(1, exact, named, Some(true), 1).is_none());
    assert!(exact_search(1, exact, named, Some(true), 2000).is_none());
    // Points without a flag count as deleted.
    assert_eq!(exact_search(1, exact, none, Some(true), 2000).unwrap(), vec!["1 99@0 false false"]);
    assert!(exact_search(1, Some(params()), none, Some(true), 10).is_none());
    assert!(exact_search(1, None, none, Some(true), 10).is_none());
}

#[test]
fn filters_on_identity_are_not_kept() {
    assert!(gpu_filter_cacheable(&any_filter(vec![1])));
    assert!(gpu_filter_cacheable(&Filter::new()));
    let nested = Filter::new_must(Condition::Filter(Box::new(any_filter(vec![1]))));
    assert!(gpu_filter_cacheable(&nested));
    let identity = Filter::new_must(Condition::HasId(vec![1]));
    assert!(!gpu_filter_cacheable(&identity));
    assert!(!gpu_filter_cacheable(&Filter::new_must(Condition::Filter(Box::new(identity)))));
}

#[test]
fn the_device_is_set_up_once() {
    let mut slot: OnceSlot<u32> = OnceSlot::new();
    let off = GpuSearchConfig { enabled: false, ..gpu() };
    assert!(!gpu_exact_search_cache(&off, &mut slot, &|| Ok(Some(1))).unwrap());
    assert!(slot.get().is_none());
    assert!(gpu_exact_search_cache(&gpu(), &mut slot, &|| Ok(Some(1))).unwrap());
    assert!(gpu_exact_search_cache(&gpu(), &mut slot, &|| Ok(Some(2))).unwrap());
    assert_eq!(slot.get(), Some(&1));

    let mut slot: OnceSlot<u32> = OnceSlot::new();
    let unrouted = GpuSearchConfig { router_enabled: false, ..gpu() };
    assert!(!gpu_filtered_graph_search_cache(&unrouted, &mut slot, &|| Ok(Some(1))).unwrap());
    let failed = gpu_filtered_graph_search_cache(&gpu(), &mut slot, &|| Err(broken()));
    assert_eq!(text(failed), "broken");
    assert!(!gpu_filtered_graph_search_cache(&gpu(), &mut slot, &|| Ok(Some(1))).unwrap());
}

#[test]
fn an_index_tells_of_itself() {
    for value in ["0", "false", "off"] {
        assert!(!factorized_filter_batch_enabled(Some(value)));
    }
    for value in [None, Some(""), Some("1"), Some("False"), Some("offf")] {
        assert!(factorized_filter_batch_enabled(value));
    }
    assert_eq!(text(update_vector()), "Cannot update HNSW index");
    assert_eq!(config().indexed_vector_count(7), 7);
    let counted = HnswGraphConfig { indexed_vector_count: Some(3), ..config() };
    assert_eq!(counted.indexed_vector_count(7), 3);
    let telemetry = HnswSearchesTelemetry {
        unfiltered_plain: 1,
        filtered_plain: 2,
        unfiltered_hnsw: 3,
        small_cardinality: 4,
        large_cardinality: 5,
        exact_filtered: 6,
        exact_unfiltered: 7,
    };
    assert_eq!(*telemetry.timer(SearchTimer::ExactFiltered), 6);
    let report = telemetry.get_telemetry_data();
    assert_eq!(report.filtered_small_cardinality, 4);
    assert_eq!(report.unfiltered_exact, 7);
    assert_eq!(report.filtered_sparse, None);
}
