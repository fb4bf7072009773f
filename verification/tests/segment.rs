use vector_segment::counter::HardwareCounterCell;
use vector_segment::error::OperationError;
use vector_segment::factorized_exact::{
    merge_candidate_major_exact_tiles, CandidateMajorExactConfig, FactorizedExactCandidate,
};
use vector_segment::factorized_filter::FactorizedFilterPlan;
use vector_segment::filter::{AnyVariants, Condition, FieldCondition, Filter, Match};
use vector_segment::integer_postings::{IntegerPosting, IntegerPostingAtom, IntegerPostingBatch};
use vector_segment::segment::{
    candidates_from_integer_postings, duration_micros_u64, should_collect_single_valued_directly,
    Segment, VectorData,
};
use vector_segment::storage::{
    Distance, QueryVector, VectorInternal, VectorStorage, VectorStorageDatatype, VectorStorageKind,
};
use vector_segment::types::ScoredPointOffset;

#[test]
fn single_valued_postings_build_candidates_without_dense_mask() {
    let posting_batch = IntegerPostingBatch {
        postings: vec![
            IntegerPosting {
                query_mask: 0b0011,
                point_ids: vec![7, 2],
            },
            IntegerPosting {
                query_mask: 0b0100,
                point_ids: vec![5],
            },
        ],
        single_valued: true,
    };

    let candidates = candidates_from_integer_postings(posting_batch, 8, 2, &|| false)
        .unwrap()
        .unwrap();
    assert_eq!(
        candidates,
        vec![
            FactorizedExactCandidate::new(2, 0b0011),
            FactorizedExactCandidate::new(5, 0b0100),
            FactorizedExactCandidate::new(7, 0b0011),
        ],
    );
}

#[test]
fn multi_valued_postings_still_merge_query_masks() {
    let posting_batch = IntegerPostingBatch {
        postings: vec![
            IntegerPosting {
                query_mask: 0b0001,
                point_ids: vec![2, 5],
            },
            IntegerPosting {
                query_mask: 0b0110,
                point_ids: vec![5, 7],
            },
        ],
        single_valued: false,
    };

    let candidates = candidates_from_integer_postings(posting_batch, 8, 2, &|| false)
        .unwrap()
        .unwrap();
    assert_eq!(
        candidates,
        vec![
            FactorizedExactCandidate::new(2, 0b0001),
            FactorizedExactCandidate::new(5, 0b0111),
            FactorizedExactCandidate::new(7, 0b0110),
        ],
    );
}

#[test]
fn single_valued_collection_switches_to_dense_scan_when_postings_are_dense() {
    assert!(should_collect_single_valued_directly(249, 1000, 128));
    assert!(!should_collect_single_valued_directly(251, 1000, 128));
    assert!(should_collect_single_valued_directly(64, 128, 128));
}

#[test]
fn long_durations_saturate() {
    assert_eq!(duration_micros_u64(17), 17);
    assert_eq!(duration_micros_u64(u128::MAX), u64::MAX);
}

fn storage() -> VectorStorage {
    VectorStorage {
        kind: VectorStorageKind::DenseMemmap,
        distance: Distance::Cosine,
        datatype: VectorStorageDatatype::Float32,
        vector_dim: 1,
        total_vector_count: 8,
        deleted: vec![false; 8],
        on_disk: true,
    }
}

fn segment(quantized: bool) -> Segment {
    Segment {
        appendable_flag: false,
        vector_data: vec![VectorData {
            name: "image".to_owned(),
            quantized,
            vector_storage: storage(),
        }],
        total_point_count: 8,
        deleted_points: vec![false; 8],
    }
}

fn filter_plan(queries: usize) -> FactorizedFilterPlan {
    let filters: Vec<Filter> = (0..queries as i64)
        .map(|query| {
            Filter::new_must(Condition::Field(FieldCondition::new_match(
                "group_id".to_owned(),
                Match::Any(AnyVariants::Integers(vec![query, query + 1])),
            )))
        })
        .collect();
    FactorizedFilterPlan::try_from_filters(&filters).unwrap()
}

fn config() -> CandidateMajorExactConfig {
    CandidateMajorExactConfig {
        max_tiles: 2,
        min_score_pairs_per_tile: 1,
        ordinal_ordering_threshold: 2,
    }
}

fn fetch(
    key: &String,
    atoms: &Vec<IntegerPostingAtom>,
) -> Result<Option<IntegerPostingBatch>, OperationError> {
    assert_eq!(key, "group_id");
    Ok(Some(IntegerPostingBatch {
        postings: atoms
            .iter()
            .map(|atom| IntegerPosting {
                query_mask: atom.query_mask,
                point_ids: vec![atom.value as u32, atom.value as u32 + 3],
            })
            .collect(),
        single_valued: false,
    }))
}

fn nearest(value: u32) -> QueryVector {
    QueryVector::Nearest(VectorInternal::Dense(vec![value]))
}

#[test]
fn a_segment_plans_scores_and_materializes() {
    let segment = segment(false);
    let name = "image".to_owned();
    let (a, b) = (nearest(1), nearest(10));
    let queries = [&a, &b];
    let plan = segment
        .prepare_candidate_major_exact(
            &name,
            &queries,
            &filter_plan(2),
            2,
            config(),
            None,
            &|vector: &Vec<u32>| vector.clone(),
            &fetch,
            &|| 0,
            &|| false,
        )
        .unwrap()
        .unwrap();
    // Values 0, 1 and 2 stand for points 0, 3; 1, 4; and 2, 5.
    let points: Vec<u32> = plan.candidates().iter().map(|c| c.point_id).collect();
    assert_eq!(points, vec![0, 1, 2, 3, 4, 5]);
    assert_eq!(plan.planned_score_pairs(), 8);
    assert_eq!(plan.prepare_stats().posting_atoms, 3);
    assert_eq!(plan.prepare_stats().posting_points, 6);

    let mut counter = HardwareCounterCell::disposable();
    let mut outputs = Vec::new();
    for tile in 0..plan.tile_count() {
        outputs.push(
            segment
                .score_candidate_major_exact_tile(
                    &name,
                    &plan,
                    tile,
                    &|point| vec![point],
                    &|query: &Vec<u32>, vector: &Vec<u32>| (query[0] * vector[0]) as i32,
                    &mut counter,
                    &|| false,
                )
                .unwrap()
                .unwrap(),
        );
    }
    let merged = merge_candidate_major_exact_tiles(&plan, outputs).unwrap();
    let ids: Vec<Vec<u32>> = merged
        .results
        .iter()
        .map(|list| list.iter().map(|point| point.idx).collect())
        .collect();
    assert_eq!(ids, vec![vec![4, 3], vec![5, 4]]);

    let names = segment
        .materialize_candidate_major_exact(&merged.results, &|points: &Vec<ScoredPointOffset>| {
            Ok(format!("{}", points[0].idx))
        })
        .unwrap();
    assert_eq!(names, vec!["4".to_owned(), "5".to_owned()]);
    let failed = segment.materialize_candidate_major_exact(
        &merged.results,
        &|_: &Vec<ScoredPointOffset>| Err::<String, _>(OperationError::Cancelled),
    );
    assert!(matches!(failed, Err(OperationError::Cancelled)));
}

#[test]
fn ineligible_segments_are_left_to_other_searches() {
    let query = nearest(1);
    let many: Vec<&QueryVector> = vec![&query; 65];
    let prepare = |segment: &Segment, name: &str, queries: &[&QueryVector], fetched: bool| {
        segment
            .prepare_candidate_major_exact(
                &name.to_owned(),
                queries,
                &filter_plan(queries.len().max(1)),
                2,
                config(),
                None,
                &|vector: &Vec<u32>| vector.clone(),
                &|key: &String, atoms: &Vec<IntegerPostingAtom>| {
                    if fetched {
                        fetch(key, atoms)
                    } else {
                        Ok(None)
                    }
                },
                &|| 0,
                &|| false,
            )
            .unwrap()
            .is_some()
    };
    assert!(prepare(&segment(false), "image", &[&query], true));
    assert!(!prepare(&segment(false), "image", &[&query], false));
    assert!(!prepare(&segment(false), "text", &[&query], true));
    assert!(!prepare(&segment(true), "image", &[&query], true));
    assert!(!prepare(&segment(false), "image", &[], true));
    assert!(!prepare(&segment(false), "image", &many, true));
    let appendable = Segment {
        appendable_flag: true,
        ..segment(false)
    };
    assert!(!prepare(&appendable, "image", &[&query], true));
    let mut not_dense = segment(false);
    not_dense.vector_data[0].vector_storage.kind = VectorStorageKind::Other;
    assert!(!prepare(&not_dense, "image", &[&query], true));
}

#[test]
fn postings_without_repetitions_need_no_mark() {
    let collect = |single_valued: bool, threshold: usize, last: u32| {
        let posting_batch = IntegerPostingBatch {
            postings: vec![
                IntegerPosting {
                    query_mask: 0b01,
                    point_ids: vec![7, 2],
                },
                IntegerPosting {
                    query_mask: 0b10,
                    point_ids: vec![5, last],
                },
            ],
            single_valued,
        };
        candidates_from_integer_postings(posting_batch, 40, threshold, &|| false).unwrap()
    };
    let ids = |list: &Vec<FactorizedExactCandidate>| {
        list.iter().map(|c| c.point_id).collect::<Vec<_>>()
    };
    for threshold in [0, 3, 4, 5, 100] {
        let marked = collect(true, threshold, 1).unwrap();
        assert_eq!(marked, collect(false, threshold, 1).unwrap());
        if threshold <= 4 {
            assert_eq!(ids(&marked), vec![1, 2, 5, 7]);
        } else {
            assert_eq!(ids(&marked), vec![7, 2, 5, 1]);
        }
        assert!(collect(true, threshold, 40).is_none());
        assert!(collect(false, threshold, 40).is_none());
    }
    // A repeated point comes once, with both masks.
    let united = collect(false, 100, 2).unwrap();
    assert_eq!(ids(&united), vec![7, 2, 5]);
    assert_eq!(united[1].query_mask, 0b11);
}
