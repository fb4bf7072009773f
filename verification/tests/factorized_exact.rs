use std::collections::BTreeMap;

use vector_segment::counter::HardwareCounterCell;
use vector_segment::error::OperationError;
use vector_segment::factorized_exact::{
    build_candidate_major_exact_plan, collect_factorized_exact_candidates,
    merge_candidate_major_exact_tiles, score_candidate_major_exact_tile,
    search_candidate_major_exact_cosine, CandidateMajorExactConfig, CandidateMajorExactPlan,
    CandidateMajorExactTileOutput, FactorizedExactCandidate,
};
use vector_segment::factorized_filter::FactorizedFilterPlan;
use vector_segment::filter::{AnyVariants, Condition, FieldCondition, Filter, Match};
use vector_segment::storage::{
    check_deleted_condition, Distance, QueryVector, VectorInternal, VectorStorage,
    VectorStorageDatatype, VectorStorageKind,
};
use vector_segment::types::ScoredPointOffset;

fn config(
    max_tiles: usize,
    min_score_pairs_per_tile: usize,
    ordinal_ordering_threshold: usize,
) -> CandidateMajorExactConfig {
    CandidateMajorExactConfig {
        max_tiles,
        min_score_pairs_per_tile,
        ordinal_ordering_threshold,
    }
}

fn filter(values: Vec<i64>) -> Filter {
    Filter::new_must(Condition::Field(FieldCondition::new_match(
        "group_id".to_owned(),
        Match::Any(AnyVariants::Integers(values)),
    )))
}

fn plan(query_count: usize) -> FactorizedFilterPlan {
    let filters: Vec<Filter> = (0..query_count)
        .map(|query_index| {
            filter(vec![
                query_index as i64,
                query_index.saturating_add(1) as i64,
            ])
        })
        .collect();
    FactorizedFilterPlan::try_from_filters(&filters).unwrap()
}

fn normalized(vector: &[f32]) -> Vec<f32> {
    let length = vector.iter().map(|x| x * x).sum::<f32>().sqrt();
    vector.iter().map(|x| x / length).collect()
}

fn bits(vector: &[f32]) -> Vec<u32> {
    vector.iter().map(|x| x.to_bits()).collect()
}

fn floats(words: &[u32]) -> Vec<f32> {
    words.iter().map(|x| f32::from_bits(*x)).collect()
}

fn order_key(score: f32) -> i32 {
    let bits = score.to_bits();
    if bits >> 31 == 0 {
        bits as i32
    } else {
        -((bits & 0x7fff_ffff) as i32)
    }
}

fn preprocess(vector: &Vec<u32>) -> Vec<u32> {
    bits(&normalized(&floats(vector)))
}

fn similarity(a: &Vec<u32>, b: &Vec<u32>) -> i32 {
    order_key(
        floats(a)
            .iter()
            .zip(floats(b))
            .map(|(x, y)| x * y)
            .sum::<f32>(),
    )
}

struct Points {
    storage: VectorStorage,
    vectors: Vec<Vec<u32>>,
}

fn storage(points: &[Vec<f32>]) -> Points {
    Points {
        storage: VectorStorage {
            kind: VectorStorageKind::DenseVolatile,
            distance: Distance::Cosine,
            datatype: VectorStorageDatatype::Float32,
            vector_dim: points[0].len(),
            total_vector_count: points.len(),
            deleted: vec![false; points.len()],
            on_disk: false,
        },
        vectors: points.iter().map(|point| bits(&normalized(point))).collect(),
    }
}

fn queries_of(queries: &[Vec<f32>]) -> Vec<QueryVector> {
    queries
        .iter()
        .map(|query| QueryVector::Nearest(VectorInternal::Dense(bits(query))))
        .collect()
}

fn query_refs(queries: &[QueryVector]) -> Vec<&QueryVector> {
    queries.iter().collect()
}

fn independent_results(
    points: &Points,
    queries: &[Vec<f32>],
    candidates: &[FactorizedExactCandidate],
    point_deleted: &[bool],
    top: usize,
) -> Vec<Vec<ScoredPointOffset>> {
    let mut consolidated = BTreeMap::<u32, u64>::new();
    for candidate in candidates {
        *consolidated.entry(candidate.point_id).or_default() |= candidate.query_mask;
    }
    queries
        .iter()
        .enumerate()
        .map(|(query_index, query)| {
            let query = preprocess(&bits(query));
            let mut scored: Vec<ScoredPointOffset> = consolidated
                .iter()
                .filter(|(point_id, query_mask)| {
                    (*query_mask & (1_u64 << query_index)) != 0
                        && (**point_id as usize) < points.storage.total_vector_count
                        && check_deleted_condition(
                            **point_id,
                            &points.storage.deleted,
                            point_deleted,
                        )
                })
                .map(|(point_id, _)| ScoredPointOffset {
                    idx: *point_id,
                    score: similarity(&query, &points.vectors[*point_id as usize]),
                })
                .collect();
            scored.sort_by(|a, b| b.score.cmp(&a.score));
            scored.truncate(top);
            scored
        })
        .collect()
}

fn scores(results: &[Vec<ScoredPointOffset>]) -> Vec<Vec<i32>> {
    results
        .iter()
        .map(|points| points.iter().map(|point| point.score).collect())
        .collect()
}

#[test]
fn overlap_matches_independent_scoring_and_merges_duplicate_candidates() {
    let points = storage(&[
        vec![1.0, 0.1, 0.0],
        vec![0.7, 0.8, 0.1],
        vec![0.1, 0.9, 0.5],
        vec![0.2, 0.1, 1.0],
    ]);
    let queries = vec![
        vec![1.0, 0.0, 0.0],
        vec![0.0, 1.0, 0.0],
        vec![0.0, 0.0, 1.0],
    ];
    let candidates = vec![
        FactorizedExactCandidate::new(0, 0b001),
        FactorizedExactCandidate::new(1, 0b001),
        FactorizedExactCandidate::new(1, 0b010),
        FactorizedExactCandidate::new(2, 0b110),
        FactorizedExactCandidate::new(3, 0b100),
    ];
    let deleted = vec![false; 4];
    let expected = independent_results(&points, &queries, &candidates, &deleted, 2);

    let inputs = queries_of(&queries);
    let output = search_candidate_major_exact_cosine(
        &points.storage,
        &query_refs(&inputs),
        &plan(queries.len()),
        candidates,
        &deleted,
        2,
        config(4, 2, usize::MAX),
        &preprocess,
        &|point: u32| points.vectors[point as usize].clone(),
        &similarity,
        &mut HardwareCounterCell::disposable(),
        &|| false,
    )
    .unwrap();

    assert_eq!(output.results, expected);
    assert_eq!(output.stats.input_candidates, 5);
    assert_eq!(output.stats.duplicate_candidates_merged, 1);
    assert_eq!(output.stats.vector_reads, 4);
    assert_eq!(output.stats.scored_pairs, 6);
    assert!(output.stats.tiles > 1);
}

#[test]
fn deleted_points_and_vectors_are_not_scored() {
    let mut points = storage(&[
        vec![1.0, 0.0, 0.0],
        vec![0.9, 0.2, 0.0],
        vec![0.8, 0.4, 0.0],
        vec![0.1, 1.0, 0.0],
    ]);
    points.storage.deleted[1] = true;
    let mut deleted = vec![false; 4];
    deleted[2] = true;
    let queries = vec![vec![1.0, 0.0, 0.0], vec![0.0, 1.0, 0.0]];
    let candidates: Vec<FactorizedExactCandidate> = (0..4)
        .map(|point_id| FactorizedExactCandidate::new(point_id, 0b11))
        .collect();
    let expected = independent_results(&points, &queries, &candidates, &deleted, 3);

    let inputs = queries_of(&queries);
    let output = search_candidate_major_exact_cosine(
        &points.storage,
        &query_refs(&inputs),
        &plan(queries.len()),
        candidates,
        &deleted,
        3,
        config(4, 1, usize::MAX),
        &preprocess,
        &|point: u32| points.vectors[point as usize].clone(),
        &similarity,
        &mut HardwareCounterCell::disposable(),
        &|| false,
    )
    .unwrap();

    assert_eq!(output.results, expected);
    assert_eq!(output.stats.vector_reads, 2);
    assert_eq!(output.stats.scored_pairs, 4);
    assert!(output
        .results
        .iter()
        .flatten()
        .all(|point| point.idx != 1 && point.idx != 2));
}

#[test]
fn independently_scored_tiles_merge_in_any_completion_order() {
    let points = storage(&[
        vec![1.0, 0.1, 0.0],
        vec![0.9, 0.3, 0.1],
        vec![0.7, 0.6, 0.2],
        vec![0.5, 0.8, 0.3],
        vec![0.3, 0.9, 0.4],
        vec![0.2, 0.7, 0.8],
        vec![0.1, 0.4, 1.0],
        vec![0.4, 0.2, 0.9],
    ]);
    let queries = vec![
        vec![1.0, 0.0, 0.0],
        vec![0.0, 1.0, 0.0],
        vec![0.0, 0.0, 1.0],
    ];
    let masks = [0b001, 0b011, 0b010, 0b111, 0b110, 0b100, 0b101, 0b111];
    let candidates: Vec<FactorizedExactCandidate> = masks
        .into_iter()
        .enumerate()
        .map(|(point_id, query_mask)| FactorizedExactCandidate::new(point_id as u32, query_mask))
        .collect();
    let deleted = vec![false; candidates.len()];
    let expected = independent_results(&points, &queries, &candidates, &deleted, 3);
    let inputs = queries_of(&queries);
    let exact_plan = build_candidate_major_exact_plan(
        &points.storage,
        &query_refs(&inputs),
        &plan(queries.len()),
        candidates,
        &deleted,
        3,
        config(4, 1, usize::MAX),
        &preprocess,
        &|| false,
    )
    .unwrap();
    assert!(exact_plan.tile_count() > 1);

    let tile_outputs = (0..exact_plan.tile_count())
        .rev()
        .map(|tile_ordinal| {
            score_candidate_major_exact_tile(
                &exact_plan,
                tile_ordinal,
                &points.storage,
                &|point: u32| points.vectors[point as usize].clone(),
                &similarity,
                &mut HardwareCounterCell::disposable(),
                &|| false,
            )
            .unwrap()
        })
        .collect();
    let merged = merge_candidate_major_exact_tiles(&exact_plan, tile_outputs).unwrap();

    assert_eq!(merged.results, expected);
    assert_eq!(merged.stats.vector_reads, exact_plan.candidates().len());
    assert_eq!(merged.stats.scored_pairs, exact_plan.planned_score_pairs());
}

#[test]
fn ordinal_threshold_switches_from_touched_order_to_sequential_order() {
    let point_query_masks = vec![1, 1, 1, 1, 1, 1];
    let touched_points = vec![5, 4, 3, 2, 1, 0];
    let touched_candidates = collect_factorized_exact_candidates(
        &point_query_masks,
        &touched_points,
        touched_points.len() + 1,
    )
    .unwrap();
    let ordinal_candidates =
        collect_factorized_exact_candidates(&point_query_masks, &touched_points, 3).unwrap();
    assert_eq!(
        touched_candidates
            .iter()
            .map(|candidate| candidate.point_id)
            .collect::<Vec<u32>>(),
        touched_points
    );
    assert_eq!(
        ordinal_candidates
            .iter()
            .map(|candidate| candidate.point_id)
            .collect::<Vec<u32>>(),
        vec![0, 1, 2, 3, 4, 5]
    );

    let points = storage(&[
        vec![1.0, 0.0],
        vec![1.0, 0.0],
        vec![1.0, 0.0],
        vec![1.0, 0.0],
        vec![1.0, 0.0],
        vec![1.0, 0.0],
    ]);
    let inputs = queries_of(&[vec![1.0, 0.0]]);
    let deleted = vec![false; point_query_masks.len()];
    let read = |point: u32| points.vectors[point as usize].clone();
    let touched_result = search_candidate_major_exact_cosine(
        &points.storage,
        &query_refs(&inputs),
        &plan(1),
        touched_candidates.clone(),
        &deleted,
        2,
        config(1, 1, usize::MAX),
        &preprocess,
        &read,
        &similarity,
        &mut HardwareCounterCell::disposable(),
        &|| false,
    )
    .unwrap();
    let ordinal_result = search_candidate_major_exact_cosine(
        &points.storage,
        &query_refs(&inputs),
        &plan(1),
        ordinal_candidates,
        &deleted,
        2,
        config(1, 1, usize::MAX),
        &preprocess,
        &read,
        &similarity,
        &mut HardwareCounterCell::disposable(),
        &|| false,
    )
    .unwrap();
    assert_eq!(
        scores(&touched_result.results),
        scores(&ordinal_result.results)
    );

    let sorted_plan = build_candidate_major_exact_plan(
        &points.storage,
        &query_refs(&inputs),
        &plan(1),
        touched_candidates,
        &deleted,
        2,
        config(1, 1, 3),
        &preprocess,
        &|| false,
    )
    .unwrap();
    assert!(sorted_plan.ordinal_ordered());
    assert!(sorted_plan.ordinal_sort_applied());
    assert_eq!(
        sorted_plan
            .candidates()
            .iter()
            .map(|candidate| candidate.point_id)
            .collect::<Vec<u32>>(),
        vec![0, 1, 2, 3, 4, 5]
    );
}

fn refusal<T>(result: Result<T, OperationError>) -> String {
    match result {
        Err(OperationError::ServiceError { description }) => description,
        _ => panic!("an error was expected"),
    }
}

fn build(
    storage: &VectorStorage,
    queries: &[QueryVector],
    planned: usize,
    candidates: Vec<FactorizedExactCandidate>,
    config: CandidateMajorExactConfig,
) -> Result<CandidateMajorExactPlan, OperationError> {
    build_candidate_major_exact_plan(
        storage,
        &query_refs(queries),
        &plan(planned),
        candidates,
        &[false; 4],
        2,
        config,
        &preprocess,
        &|| false,
    )
}

#[test]
fn unsupported_batches_are_refused() {
    let points = storage(&[vec![1.0, 0.0], vec![0.0, 1.0], vec![1.0, 1.0], vec![2.0, 1.0]]);
    let queries = queries_of(&[vec![1.0, 0.0]]);
    let fine = || vec![FactorizedExactCandidate::new(1, 1)];
    assert!(build(&points.storage, &queries, 1, fine(), config(1, 1, 1)).is_ok());
    assert_eq!(
        refusal(build(&points.storage, &[], 1, fine(), config(1, 1, 1))),
        "candidate-major exact search requires at least one query"
    );
    let many = queries_of(&vec![vec![1.0, 0.0]; 65]);
    assert_eq!(
        refusal(build(&points.storage, &many, 65, fine(), config(1, 1, 1))),
        "candidate-major exact search supports at most 64 queries"
    );
    assert_eq!(
        refusal(build(&points.storage, &queries, 2, fine(), config(1, 1, 1))),
        "factorized plan query count differs from vector query count"
    );
    assert_eq!(
        refusal(build(&points.storage, &queries, 1, fine(), config(0, 1, 1))),
        "candidate-major exact max tile count must be greater than zero"
    );
    assert_eq!(
        refusal(build(&points.storage, &queries, 1, fine(), config(1, 0, 1))),
        "minimum score pairs per tile must be greater than zero"
    );
    let other = |distance, datatype, kind| VectorStorage {
        distance,
        datatype,
        kind,
        vector_dim: 2,
        total_vector_count: 4,
        deleted: vec![false; 4],
        on_disk: false,
    };
    for (changed, text) in [
        (
            other(
                Distance::Dot,
                VectorStorageDatatype::Float32,
                VectorStorageKind::DenseVolatile,
            ),
            "candidate-major exact search currently supports cosine distance only",
        ),
        (
            other(
                Distance::Cosine,
                VectorStorageDatatype::Uint8,
                VectorStorageKind::DenseVolatile,
            ),
            "candidate-major exact search currently supports f32 storage only",
        ),
        (
            other(
                Distance::Cosine,
                VectorStorageDatatype::Float32,
                VectorStorageKind::Other,
            ),
            "candidate-major exact search requires single dense f32 storage",
        ),
    ] {
        assert_eq!(refusal(build(&changed, &queries, 1, fine(), config(1, 1, 1))), text);
    }
    assert_eq!(
        refusal(build(
            &points.storage,
            &[QueryVector::Other],
            1,
            fine(),
            config(1, 1, 1)
        )),
        "query 0 is not a nearest dense query"
    );
    let stray = vec![FactorizedExactCandidate::new(1, 0b10)];
    assert_eq!(
        refusal(build(&points.storage, &queries, 1, stray, config(1, 1, 1))),
        "candidate query mask contains an out-of-range query bit"
    );
}

#[test]
fn tiles_that_do_not_fit_the_plan_are_refused() {
    let points = storage(&[vec![1.0, 0.0], vec![0.0, 1.0], vec![1.0, 1.0], vec![2.0, 1.0]]);
    let queries = queries_of(&[vec![1.0, 0.0]]);
    let candidates: Vec<FactorizedExactCandidate> =
        (0..4).map(|point| FactorizedExactCandidate::new(point, 1)).collect();
    let plan = build(&points.storage, &queries, 1, candidates, config(2, 1, 1)).unwrap();
    assert_eq!(plan.tile_count(), 2);
    let score = |tile: usize, storage: &VectorStorage| {
        score_candidate_major_exact_tile(
            &plan,
            tile,
            storage,
            &|point| points.vectors[point as usize].clone(),
            &similarity,
            &mut HardwareCounterCell::disposable(),
            &|| false,
        )
    };
    assert_eq!(
        refusal(score(2, &points.storage)),
        "candidate-major exact tile ordinal is out of range"
    );
    let narrow = VectorStorage {
        vector_dim: 1,
        kind: VectorStorageKind::DenseVolatile,
        distance: Distance::Cosine,
        datatype: VectorStorageDatatype::Float32,
        total_vector_count: 4,
        deleted: vec![false; 4],
        on_disk: false,
    };
    assert_eq!(
        refusal(score(0, &narrow)),
        "candidate-major exact plan vector dimension differs from storage"
    );
    let output = |tile| score(tile, &points.storage).unwrap();
    assert_eq!(
        refusal(merge_candidate_major_exact_tiles(&plan, vec![output(0)])),
        "candidate-major exact tile output count differs from plan"
    );
    assert_eq!(
        refusal(merge_candidate_major_exact_tiles(&plan, vec![output(0), output(0)])),
        "candidate-major exact tile output ordinal is duplicated"
    );
    let far = || CandidateMajorExactTileOutput {
        tile_ordinal: 7,
        ..output(1)
    };
    for outputs in [vec![output(0), far()], vec![far(), output(0)], vec![far(), far()]] {
        assert_eq!(
            refusal(merge_candidate_major_exact_tiles(&plan, outputs)),
            "candidate-major exact tile output ordinal is out of range"
        );
    }
    let poor = CandidateMajorExactTileOutput {
        results: vec![],
        ..output(1)
    };
    assert_eq!(
        refusal(merge_candidate_major_exact_tiles(&plan, vec![output(0), poor])),
        "candidate-major exact tile query result count differs from plan"
    );
    let idle = CandidateMajorExactTileOutput {
        scored_pairs: 0,
        ..output(1)
    };
    assert_eq!(
        refusal(merge_candidate_major_exact_tiles(&plan, vec![output(0), idle])),
        "candidate-major exact tile outputs do not cover the complete plan"
    );
    let huge = CandidateMajorExactTileOutput {
        vector_reads: usize::MAX,
        ..output(1)
    };
    assert_eq!(
        refusal(merge_candidate_major_exact_tiles(&plan, vec![output(0), huge])),
        "merged vector-read count overflow"
    );
    let huge = CandidateMajorExactTileOutput {
        scored_pairs: usize::MAX,
        ..output(1)
    };
    assert_eq!(
        refusal(merge_candidate_major_exact_tiles(&plan, vec![output(0), huge])),
        "merged score-pair count overflow"
    );
}

#[test]
fn a_raised_stop_flag_cancels() {
    let points = storage(&[vec![1.0, 0.0], vec![0.0, 1.0]]);
    let queries = queries_of(&[vec![1.0, 0.0]]);
    let search = |candidates| {
        search_candidate_major_exact_cosine(
            &points.storage,
            &query_refs(&queries),
            &plan(1),
            candidates,
            &[false; 2],
            1,
            config(1, 1, 1),
            &preprocess,
            &|point| points.vectors[point as usize].clone(),
            &similarity,
            &mut HardwareCounterCell::disposable(),
            &|| true,
        )
    };
    assert!(matches!(
        search(vec![FactorizedExactCandidate::new(0, 1)]),
        Err(OperationError::Cancelled)
    ));
    // Without candidates nothing is left to cancel.
    assert_eq!(search(vec![]).unwrap().results, vec![vec![]]);
}

#[test]
fn points_outside_the_mask_array_are_refused() {
    assert_eq!(
        refusal(collect_factorized_exact_candidates(&[1, 2], &[5], 10)),
        "touched point ordinal is outside the point-query mask array"
    );
    // A scan does not look at the touched points.
    assert_eq!(
        collect_factorized_exact_candidates(&[1, 0, 2], &[5], 1).unwrap(),
        vec![
            FactorizedExactCandidate::new(0, 1),
            FactorizedExactCandidate::new(2, 2)
        ]
    );
}

#[test]
fn the_order_and_the_split_of_candidates_change_no_score() {
    let points = storage(&[
        vec![1.0, 0.1, 0.0],
        vec![0.7, 0.8, 0.1],
        vec![0.1, 0.9, 0.5],
        vec![0.2, 0.1, 1.0],
    ]);
    let queries = queries_of(&[
        vec![1.0, 0.0, 0.0],
        vec![0.0, 1.0, 0.0],
        vec![0.0, 0.0, 1.0],
    ]);
    let candidate = FactorizedExactCandidate::new;
    let whole = vec![candidate(0, 0b001), candidate(1, 0b011), candidate(2, 0b110)];
    let split = vec![
        candidate(2, 0b100),
        candidate(1, 0b010),
        candidate(2, 0b010),
        candidate(0, 0b001),
        candidate(1, 0b001),
        candidate(1, 0b001),
    ];
    let search = |candidates: &Vec<FactorizedExactCandidate>, config| {
        let output = search_candidate_major_exact_cosine(
            &points.storage,
            &query_refs(&queries),
            &plan(3),
            candidates.clone(),
            &[false; 4],
            2,
            config,
            &preprocess,
            &|point: u32| points.vectors[point as usize].clone(),
            &similarity,
            &mut HardwareCounterCell::disposable(),
            &|| false,
        )
        .unwrap();
        scores(&output.results)
    };
    let expected = search(&whole, config(1, 1, 0));
    assert_eq!(expected.iter().map(Vec::len).collect::<Vec<_>>(), vec![2, 2, 1]);
    for candidates in [&whole, &split] {
        for tiles in 1..4 {
            for threshold in [0, 3, usize::MAX] {
                let config = config(tiles, 1, threshold);
                assert_eq!(search(candidates, config), expected);
                let built =
                    build(&points.storage, &queries, 3, candidates.clone(), config).unwrap();
                assert_eq!(built.planned_score_pairs(), 5);
            }
        }
    }
}
