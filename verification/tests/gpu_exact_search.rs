use std::cell::RefCell;
use std::sync::Arc;

use vector_segment::error::{OperationError, OperationResult};
use vector_segment::filter::{Condition, FieldCondition, Filter, Match, ValueVariants};
use vector_segment::gpu::exact_context::{
    ExactBuffer, ExactCommand, ExactOutput, ExactReply, ExactSubmission,
};
use vector_segment::gpu::exact_search::{CoalescedSearch, GpuExactSearchCache};
use vector_segment::gpu::filter_cache::{GpuFilterCandidateCache, FILTER_CACHE_MAX_ENTRIES};
use vector_segment::gpu::resident::{GpuResidentCandidateCache, SharedCandidates};
use vector_segment::gpu::search_commands::{GpuVectorStorage, Kernel, SearchCommand};
use vector_segment::gpu::search_stats::{GpuExactSearchStats, Share, SubmissionTimes};
use vector_segment::gpu::submission::{is_ready, response_channel_closed, responses};
use vector_segment::gpu::visibility::{pack_deleted_words, GpuVisibilitySnapshot};
use vector_segment::storage::{Distance, VectorStorage, VectorStorageDatatype, VectorStorageKind};
use vector_segment::types::ScoredPointOffset;

#[test]
fn filter_candidate_cache_is_epoch_scoped() {
    let filter = Filter::new();
    let candidates = Arc::new(vec![1, 3, 5]);
    let mut cache = GpuFilterCandidateCache::default();

    assert!(cache.get(&filter, 7).is_none());
    cache.insert(filter.copied(), candidates.clone(), 7);
    assert_eq!(cache.get(&filter, 7).as_deref(), Some(candidates.as_ref()));
    assert!(cache.get(&filter, 8).is_none());
}

#[test]
fn deleted_words_are_lsb_first_and_hide_padding() {
    let mut deleted = vec![false; 35];
    deleted[0] = true;
    deleted[31] = true;
    deleted[33] = true;
    let words = pack_deleted_words(&deleted, deleted.len());
    assert_eq!(words.len(), 2);
    assert_eq!(words[0], 0x8000_0001);
    assert_eq!(words[1] & 0b111, 0b010);
    assert_eq!(words[1] >> 3, (1u32 << 29) - 1);
}

#[test]
fn deleted_words_zero_fill_a_short_proxy_mask() {
    let mut deleted = vec![false; 5];
    deleted[1] = true;
    deleted[4] = true;

    let words = pack_deleted_words(&deleted, 65);

    assert_eq!(words.len(), 3);
    assert_eq!(words[0], 0b1_0010);
    assert_eq!(words[1], 0);
    assert_eq!(words[2], u32::MAX << 1);
}

fn value_filter(value: i64) -> Filter {
    Filter::new_must(Condition::Field(FieldCondition::new_match(
        "group_id".to_owned(),
        Match::Value(ValueVariants::Integer(value)),
    )))
}

#[test]
fn a_full_filter_cache_is_emptied_before_the_next_entry() {
    let mut cache = GpuFilterCandidateCache::default();
    for value in 0..40 {
        cache.insert(value_filter(value), Arc::new(vec![value as u32]), 1);
    }
    assert_eq!(*cache.get(&value_filter(7), 1).unwrap(), vec![7]);
    // An entry is never replaced.
    cache.insert(value_filter(7), Arc::new(vec![9]), 1);
    assert_eq!(*cache.get(&value_filter(7), 1).unwrap(), vec![7]);
    // Sixteen million points fill the cache, so nothing else stays.
    let many = Arc::new(vec![0u32; 16 * 1024 * 1024]);
    cache.insert(value_filter(100), many, 1);
    assert!(cache.get(&value_filter(7), 1).is_none());
    assert!(cache.get(&value_filter(100), 1).is_some());
    // One more point is too many for the cache.
    let too_many = Arc::new(vec![0u32; 16 * 1024 * 1024 + 1]);
    cache.insert(value_filter(101), too_many, 1);
    assert!(cache.get(&value_filter(101), 1).is_none());
    assert!(cache.get(&value_filter(100), 1).is_some());
    assert_eq!(FILTER_CACHE_MAX_ENTRIES, 4096);
}

fn shared(address: usize, points: Vec<u32>) -> SharedCandidates {
    SharedCandidates {
        address,
        points: Arc::new(points),
    }
}

#[test]
fn resident_lists_are_found_by_their_address() {
    let mut cache = GpuResidentCandidateCache::default();
    let list = shared(16, vec![1, 2]);
    assert_eq!(cache.get(&list), None);
    cache.insert(list.share(), 77);
    assert_eq!(cache.get(&list), Some(77));
    assert_eq!(cache.get(&shared(32, vec![1, 2])), None);
    cache.insert(list.share(), 78);
    assert_eq!(cache.get(&list), Some(77));
    cache.clear();
    assert_eq!(cache.get(&list), None);
}

fn times() -> SubmissionTimes {
    SubmissionTimes {
        prepare_ns: 1,
        h2d_ns: 0,
        gpu_d2h_ns: 2,
        command_record_ns: 3,
        queue_submit_ns: 4,
        fence_wait_ns: 5,
        download_ns: 6,
        cpu_topk_ns: 7,
        resident_candidate_ns: 8,
        resident_visibility_ns: 9,
    }
}

#[test]
fn counters_are_reported_at_the_start_and_then_once_per_window() {
    let mut stats = GpuExactSearchStats::default();
    stats.record_inner(2, 100, times(), Some(true), Some(false));
    let report = stats.record_outer(2, 10, 20, 30, 40, Some(true)).unwrap();
    assert_eq!(report.sequence, 2);
    assert_eq!(report.queries, 2);
    assert_eq!(report.candidates, 200);
    assert_eq!(report.predicate_ns, 10);
    assert_eq!(report.cpu_topk_ns, 7);
    assert_eq!(report.filter_cache_hit_rate, Share { part: 2, whole: 2 });
    assert_eq!(
        report.resident_visibility_hit_rate,
        Share { part: 0, whole: 2 }
    );
    assert_eq!(report.average_submission_batch, Share { part: 2, whole: 1 });
    assert_eq!(stats.total_queries, 2);
    assert_eq!(stats.candidates, 0);

    assert!(stats.record_outer(1000, 1, 1, 1, 1, None).is_none());
    // A call without queries counts as one.
    assert!(stats.record_outer(0, 1, 1, 1, 1, None).is_none());
    let report = stats.record_outer(30, 1, 1, 1, 1, Some(false)).unwrap();
    assert_eq!(report.sequence, 1033);
    assert_eq!(report.queries, 1031);
    assert_eq!(report.filter_cache_hit_rate, Share { part: 0, whole: 30 });
}

fn vectors(datatype: VectorStorageDatatype, dim: usize, count: usize) -> VectorStorage {
    VectorStorage {
        kind: VectorStorageKind::DenseVolatile,
        distance: Distance::Euclid,
        datatype,
        vector_dim: dim,
        total_vector_count: count,
        deleted: vec![false; count],
        on_disk: false,
    }
}

/// A device that performs exact searches over integer vectors.
struct Device {
    vectors: Vec<Vec<u32>>,
    capacity: usize,
    staging: RefCell<Vec<u32>>,
    resident: RefCell<Vec<Vec<u32>>>,
    submissions: RefCell<usize>,
}

impl Device {
    fn new(vectors: Vec<Vec<u32>>, capacity: usize) -> Self {
        Device {
            vectors,
            capacity,
            staging: RefCell::new(Vec::new()),
            resident: RefCell::new(Vec::new()),
            submissions: RefCell::new(0),
        }
    }

    fn upload(&self, commands: Vec<ExactCommand>) -> OperationResult<u64> {
        let mut words = Vec::new();
        for command in commands {
            match command {
                SearchCommand::Upload { words: list, .. } => words = list,
                SearchCommand::Create { bytes, .. } => assert!(bytes % 4 == 0),
                SearchCommand::Copy { bytes, .. } => assert_eq!(bytes, words.len() * 4),
                SearchCommand::Run => {}
                other => panic!("unexpected command {other:?}"),
            }
        }
        let mut resident = self.resident.borrow_mut();
        resident.push(words);
        Ok(resident.len() as u64)
    }

    fn score(&self, query: &[u32], point: u32) -> i32 {
        -self.vectors[point as usize]
            .iter()
            .zip(query)
            .map(|(a, b)| (*a as i32 - *b as i32) * (*a as i32 - *b as i32))
            .sum::<i32>()
    }

    fn run(&self, submission: &ExactSubmission) -> OperationResult<ExactReply> {
        *self.submissions.borrow_mut() += 1;
        let mut queries: Vec<u32> = Vec::new();
        let mut candidates: Vec<u32> = Vec::new();
        let mut hidden: Vec<u32> = Vec::new();
        let mut blocks = false;
        let mut grid = (0, 0);
        for command in &submission.commands {
            match command {
                SearchCommand::Upload { buffer, words } => match buffer {
                    ExactBuffer::QueryStaging => queries = words.clone(),
                    ExactBuffer::CandidateStaging => *self.staging.borrow_mut() = words.clone(),
                    other => panic!("unexpected buffer {other:?}"),
                },
                SearchCommand::Copy { source, bytes, .. } => {
                    if *source == ExactBuffer::CandidateStaging {
                        candidates = self.staging.borrow()[..bytes / 4].to_vec();
                    }
                }
                SearchCommand::Bind { kernel, storage } => {
                    if let ExactBuffer::Resident { id } = storage[0] {
                        candidates = self.resident.borrow()[id as usize - 1].clone();
                    }
                    if let Some(ExactBuffer::Resident { id }) = storage.get(3) {
                        hidden = self.resident.borrow()[*id as usize - 1].clone();
                    }
                    assert_eq!(storage[1], ExactBuffer::Query);
                    assert_eq!(storage[2], ExactBuffer::Scores);
                    blocks = match kernel {
                        Kernel::ExactScore | Kernel::ExactVisibleScore => false,
                        Kernel::ExactBlockTopk | Kernel::ExactVisibleBlockTopk => true,
                        other => panic!("unexpected kernel {other:?}"),
                    };
                }
                SearchCommand::Dispatch { x, y } => grid = (*x, *y),
                SearchCommand::Barrier { .. } | SearchCommand::Run => {}
                other => panic!("unexpected command {other:?}"),
            }
        }
        let visible = |point: u32| {
            hidden.is_empty() || hidden[point as usize / 32] >> (point % 32) & 1 == 0
        };
        let output = if blocks {
            let mut points = Vec::new();
            for query in queries.chunks(self.capacity) {
                for tile in candidates.chunks(128) {
                    let mut scored: Vec<ScoredPointOffset> = tile
                        .iter()
                        .filter(|point| visible(**point))
                        .map(|point| ScoredPointOffset {
                            idx: *point,
                            score: self.score(query, *point),
                        })
                        .collect();
                    scored.sort_by(|a, b| b.score.cmp(&a.score));
                    scored.resize(
                        scored.len().max(16),
                        ScoredPointOffset {
                            idx: u32::MAX,
                            score: i32::MIN,
                        },
                    );
                    points.extend_from_slice(&scored[..16]);
                }
            }
            assert_eq!(grid.0, candidates.len().div_ceil(128));
            ExactOutput::Blocks(points)
        } else {
            assert_eq!(grid, (candidates.len(), 1));
            ExactOutput::Scores(
                candidates
                    .iter()
                    .map(|point| {
                        if visible(*point) {
                            self.score(&queries, *point)
                        } else {
                            i32::MIN
                        }
                    })
                    .collect(),
            )
        };
        Ok(ExactReply {
            output,
            gpu_d2h_ns: 1,
            command_record_ns: 1,
            queue_submit_ns: 1,
            fence_wait_ns: 1,
            download_ns: 1,
        })
    }
}

const COUNT: usize = 70_000;

fn test_vectors() -> Vec<Vec<u32>> {
    (0..COUNT as u32)
        .map(|row| (0..3).map(|column| (row * 17 + column * 13 + row * row % 97) % 521).collect())
        .collect()
}

fn test_cache(count: usize, contexts: usize, batch: usize, window_us: u64) -> GpuExactSearchCache {
    let storage = GpuVectorStorage {
        dim: 3,
        vector_capacity: 4,
        num_vectors: count,
    };
    let (cache, commands) = GpuExactSearchCache::new(
        &vectors(VectorStorageDatatype::Float32, 3, count),
        COUNT,
        contexts,
        batch,
        window_us,
        &|| Ok(storage),
    )
    .unwrap();
    assert_eq!(commands.len(), contexts);
    assert_eq!(commands[0].len(), 7);
    cache
}

fn expected(device: &Device, query: &[u32], candidates: &[u32], top: usize) -> Vec<i32> {
    let mut scores: Vec<i32> = candidates.iter().map(|p| device.score(query, *p)).collect();
    scores.sort_by(|a, b| b.cmp(a));
    scores.truncate(top);
    scores
}

fn scores(points: &[ScoredPointOffset]) -> Vec<i32> {
    points.iter().map(|point| point.score).collect()
}

#[test]
fn tiles_and_single_scores_give_the_same_points() {
    let device = Device::new(test_vectors(), 4);
    let mut cache = test_cache(COUNT, 2, 1, 0);
    let candidates = shared(1, (0..COUNT as u32).collect());
    let query = device.vectors[137].clone();
    let mut results = Vec::new();
    for reuse in [false, true, true] {
        results.push(
            cache
                .search(
                    &query,
                    &candidates,
                    10,
                    reuse,
                    None,
                    &|commands| device.upload(commands),
                    &|submission: &ExactSubmission| device.run(submission),
                    &|| 0,
                )
                .unwrap()
                .unwrap(),
        );
    }
    let best = expected(&device, &query, &candidates.points, 10);
    for result in &results {
        assert_eq!(scores(result), best);
        assert_eq!(result[0].score, 0);
    }
    assert_eq!(results[0], results[1]);
    // The list went to the device once.
    assert_eq!(device.resident.borrow().len(), 1);
}

#[test]
fn several_queries_are_served_by_one_submission() {
    let device = Device::new(test_vectors(), 4);
    let mut cache = test_cache(COUNT, 1, 1, 0);
    let candidates = shared(1, (0..COUNT as u32).collect());
    let queries: Vec<Vec<u32>> = [3, 500, 60_000].iter().map(|i| device.vectors[*i].clone()).collect();
    let refs: Vec<&[u32]> = queries.iter().map(|query| query.as_slice()).collect();
    let results = cache
        .search_batch(
            &refs,
            &candidates,
            5,
            true,
            None,
            &|commands| device.upload(commands),
            &|submission: &ExactSubmission| device.run(submission),
            &|| 0,
        )
        .unwrap()
        .unwrap();
    assert_eq!(*device.submissions.borrow(), 1);
    for (query, result) in queries.iter().zip(&results) {
        assert_eq!(scores(result), expected(&device, query, &candidates.points, 5));
    }
}

#[test]
fn deleted_points_are_hidden_from_the_device() {
    let device = Device::new(test_vectors(), 4);
    let mut cache = test_cache(COUNT, 1, 1, 0);
    let candidates = shared(1, (0..COUNT as u32).collect());
    let query = device.vectors[137].clone();
    let mut deleted = vec![false; 200];
    deleted[137] = true;
    let snapshot = GpuVisibilitySnapshot {
        generation: 3,
        deleted: &deleted,
        point_count: COUNT,
    };
    for _ in 0..2 {
        let result = cache
            .search(
                &query,
                &candidates,
                10,
                true,
                Some(snapshot),
                &|commands| device.upload(commands),
                &|submission: &ExactSubmission| device.run(submission),
                &|| 0,
            )
            .unwrap()
            .unwrap();
        let live: Vec<u32> = (0..COUNT as u32).filter(|point| *point != 137).collect();
        assert_eq!(scores(&result), expected(&device, &query, &live, 10));
        assert!(result.iter().all(|point| point.idx != 137));
    }
    // One buffer for the list and one for the deletions.
    assert_eq!(device.resident.borrow().len(), 2);
}

fn text<T>(result: OperationResult<T>) -> String {
    match result {
        Err(OperationError::ServiceError { description }) => description,
        _ => panic!("an error was expected"),
    }
}

#[test]
fn impossible_searches_are_refused() {
    let device = Device::new(test_vectors(), 4);
    let mut cache = test_cache(COUNT, 1, 1, 0);
    let candidates = shared(1, vec![1, 2, 3]);
    let query = device.vectors[1].clone();
    let mut search = |queries: &[&[u32]], list: &SharedCandidates, top: usize| {
        cache.search_batch(
            queries,
            list,
            top,
            false,
            None,
            &|commands| device.upload(commands),
            &|submission: &ExactSubmission| device.run(submission),
            &|| 0,
        )
    };
    let long = shared(2, vec![0; COUNT + 1]);
    assert_eq!(text(search(&[&query], &long, 1)), "GPU exact candidate capacity exceeded");
    assert_eq!(text(search(&[], &candidates, 1)), "GPU exact query batch capacity exceeded");
    assert_eq!(
        text(search(&[&query, &query, &query, &query, &query], &candidates, 1)),
        "GPU exact query batch capacity exceeded"
    );
    assert_eq!(
        text(search(&[&query[..2]], &candidates, 1)),
        "GPU exact query dimension mismatch"
    );
    assert_eq!(
        text(search(&[&query, &query], &candidates, 1)),
        "GPU exact multi-query submission requires block top-k"
    );
    let empty = search(&[&query, &query], &candidates, 0).unwrap().unwrap();
    assert_eq!(empty, vec![vec![], vec![]]);
    let single = search(&[&query], &candidates, 2).unwrap().unwrap();
    assert_eq!(single[0].len(), 2);
    assert_eq!(single[0][0].idx, 1);

    let snapshot = GpuVisibilitySnapshot {
        generation: 0,
        deleted: &[],
        point_count: 3,
    };
    let refused = cache.search(
        &query,
        &candidates,
        1,
        false,
        Some(snapshot),
        &|commands| device.upload(commands),
        &|submission: &ExactSubmission| device.run(submission),
        &|| 0,
    );
    assert_eq!(text(refused), "GPU visibility snapshot identity is invalid");
    let deleted = vec![false; 2];
    let oversized = GpuVisibilitySnapshot {
        generation: 1,
        deleted: &deleted,
        point_count: COUNT * 64,
    };
    let refused = cache.search(
        &query,
        &candidates,
        1,
        false,
        Some(oversized),
        &|commands| device.upload(commands),
        &|submission: &ExactSubmission| device.run(submission),
        &|| 0,
    );
    assert_eq!(text(refused), "GPU visibility word capacity exceeded");
}

#[test]
fn unusable_settings_are_refused() {
    let storage = GpuVectorStorage {
        dim: 3,
        vector_capacity: 4,
        num_vectors: 10,
    };
    let make = |datatype, capacity, contexts, batch| {
        GpuExactSearchCache::new(
            &vectors(datatype, 3, 10),
            capacity,
            contexts,
            batch,
            0,
            &|| Ok(storage),
        )
    };
    for (capacity, contexts, batch) in [(0, 1, 1), (1, 0, 1), (1, 1, 0), (1, 1, 5)] {
        assert_eq!(
            text(make(VectorStorageDatatype::Float32, capacity, contexts, batch)),
            "GPU exact capacities must be positive"
        );
    }
    assert_eq!(
        text(make(VectorStorageDatatype::Uint8, 1, 1, 1)),
        "GPU exact currently supports float32 dense vectors only"
    );
    assert!(make(VectorStorageDatatype::Float32, 1, 1, 4).is_ok());
}

#[test]
fn waiting_queries_share_a_submission() {
    let device = Device::new(test_vectors(), 4);
    let mut cache = test_cache(COUNT, 1, 2, 100);
    let candidates = shared(1, (0..COUNT as u32).collect());
    let queries: Vec<Vec<u32>> = [3, 500, 600].iter().map(|i| device.vectors[*i].clone()).collect();
    let clock = || 0;

    // Nothing waits before the list is on the device.
    let alone = cache
        .search_coalesced(&queries[0], &candidates, 5, true, None, 1, &clock)
        .unwrap();
    assert_eq!(alone, CoalescedSearch::Alone);
    cache
        .search(
            &queries[0],
            &candidates,
            5,
            true,
            None,
            &|commands| device.upload(commands),
            &|submission: &ExactSubmission| device.run(submission),
            &clock,
        )
        .unwrap();

    let mut places = Vec::new();
    for (ticket, query) in queries.iter().enumerate() {
        let waiting = cache
            .search_coalesced(query, &candidates, 5, true, None, 10 + ticket as u64, &clock)
            .unwrap();
        match waiting {
            CoalescedSearch::Waiting {
                key,
                batch_id,
                is_leader,
            } => places.push((key, batch_id, is_leader)),
            CoalescedSearch::Alone => panic!("the query should wait"),
        }
    }
    // The third query finds the first batch full.
    assert_eq!(places[0].1, places[1].1);
    assert!(places[2].1 != places[0].1);
    assert_eq!(
        places.iter().map(|place| place.2).collect::<Vec<bool>>(),
        vec![true, false, true]
    );
    assert_eq!(cache.waiting_queries(places[0].0, places[0].1), Some(2));
    assert!(is_ready(2, 2, 0, 100));
    assert!(!is_ready(1, 2, 99, 100));
    assert!(is_ready(1, 2, 100, 100));

    let answers = cache.lead_coalesced_submission(
        places[0].0,
        places[0].1,
        5,
        &|submission: &ExactSubmission| device.run(submission),
        &clock,
        &|_: &OperationError| "broken".to_owned(),
    );
    assert_eq!(answers.len(), 2);
    for (i, (ticket, answer)) in answers.into_iter().enumerate() {
        assert_eq!(ticket, 10 + i as u64);
        let points = answer.unwrap().unwrap();
        assert_eq!(scores(&points), expected(&device, &queries[i], &candidates.points, 5));
    }
    assert_eq!(cache.waiting_queries(places[0].0, places[0].1), None);
    assert_eq!(cache.waiting_queries(places[2].0, places[2].1), Some(1));

    let broken = cache.lead_coalesced_submission(
        places[2].0,
        places[2].1,
        5,
        &|_: &ExactSubmission| Err(OperationError::Cancelled),
        &clock,
        &|_: &OperationError| "broken".to_owned(),
    );
    assert_eq!(broken.len(), 1);
    assert_eq!(broken[0].0, 12);
    for (_, answer) in broken {
        assert_eq!(text(answer), "GPU exact coalesced submission failed: broken");
    }
}

#[test]
fn every_waiting_query_gets_a_response() {
    let describe = |_: &OperationError| "why".to_owned();
    let point = ScoredPointOffset { idx: 4, score: 2 };
    let good = responses(Ok(Some(vec![vec![point], vec![]])), 2, &describe);
    assert_eq!(good.len(), 2);
    let lists: Vec<Vec<ScoredPointOffset>> =
        good.into_iter().map(|answer| answer.unwrap().unwrap()).collect();
    assert_eq!(lists, vec![vec![point], vec![]]);
    for answer in responses(Ok(None), 2, &describe) {
        assert!(answer.unwrap().is_none());
    }
    for answer in responses(Ok(Some(vec![vec![point]])), 12, &describe) {
        assert_eq!(text(answer), "GPU exact batch returned 1 results for 12 queries");
    }
    let error = response_channel_closed("hung up");
    assert_eq!(
        text::<()>(Err(error)),
        "GPU exact coalesced response channel closed: hung up"
    );
}

#[test]
fn without_a_free_context_there_is_no_result() {
    let device = Device::new(test_vectors(), 4);
    let mut cache = test_cache(COUNT, 1, 1, 0);
    let candidates = shared(1, vec![1, 2, 3]);
    let query = device.vectors[1].clone();
    // A failing search gives its context back.
    for _ in 0..3 {
        let failed = cache.search(
            &query,
            &candidates,
            1,
            true,
            None,
            &|_| Err(OperationError::Cancelled),
            &|submission: &ExactSubmission| device.run(submission),
            &|| 0,
        );
        assert!(matches!(failed, Err(OperationError::Cancelled)));
    }
    let found = cache
        .search(
            &query,
            &candidates,
            1,
            true,
            None,
            &|commands| device.upload(commands),
            &|submission: &ExactSubmission| device.run(submission),
            &|| 0,
        )
        .unwrap()
        .unwrap();
    assert_eq!(found[0].idx, 1);
    let report = cache.record_outer_breakdown(1, 0, 0, 0, 0, None).unwrap();
    assert_eq!(report.context_unavailable_rate, Share { part: 0, whole: 4 });
    cache.clear_resident_candidates();
}

#[test]
fn reused_buffers_change_no_result() {
    let device = Device::new(test_vectors(), 4);
    let mut cache = test_cache(COUNT, 2, 1, 0);
    let all = shared(1, (0..COUNT as u32).collect());
    let few = shared(2, (0..COUNT as u32).step_by(7).collect());
    let query = device.vectors[137].clone();
    let mut deleted = vec![false; COUNT];
    deleted[137] = true;
    deleted[140] = true;
    let snapshot = GpuVisibilitySnapshot {
        generation: 3,
        deleted: &deleted,
        point_count: COUNT,
    };
    let mut search = |list: &SharedCandidates, reuse, visibility| {
        cache
            .search(
                &query,
                list,
                10,
                reuse,
                visibility,
                &|commands| device.upload(commands),
                &|submission: &ExactSubmission| device.run(submission),
                &|| 0,
            )
            .unwrap()
            .unwrap()
    };
    for list in [&all, &few] {
        for visibility in [None, Some(snapshot)] {
            let fresh = search(list, false, visibility);
            assert_eq!(fresh.len(), 10);
            for reuse in [true, false, true] {
                assert_eq!(search(list, reuse, visibility), fresh);
            }
        }
    }
    // Two lists and one state of the deletions stay on the device.
    assert_eq!(device.resident.borrow().len(), 3);
}

#[test]
fn started_searches_share_the_contexts() {
    let device = Device::new(test_vectors(), 4);
    let mut cache = test_cache(COUNT, 2, 1, 0);
    let candidates = shared(1, (0..COUNT as u32).collect());
    let few = shared(2, vec![5, 137, 9]);
    let query = device.vectors[137].clone();
    let mut start = |cache: &mut GpuExactSearchCache, list: &SharedCandidates, reuse| {
        cache
            .start_search(list, reuse, None, &|commands| device.upload(commands), &|| 0)
            .unwrap()
    };
    let first = start(&mut cache, &candidates, true).unwrap();
    let second = start(&mut cache, &few, false).unwrap();
    assert_ne!(first.context, second.context);
    assert!(start(&mut cache, &few, false).is_none());

    let run = |submission: &ExactSubmission| device.run(submission);
    let (results, record) = second.run(&[&query], &few, 2, &run, &|| 0);
    assert_eq!(scores(&results.unwrap()[0]), expected(&device, &query, &few.points, 2));
    assert_eq!(record.unwrap().candidates, 3);
    cache.finish_search(second, record);
    assert_eq!(start(&mut cache, &few, false), Some(second));

    let (results, record) = first.run(&[&query], &candidates, 10, &run, &|| 0);
    assert_eq!(scores(&results.unwrap()[0]), expected(&device, &query, &candidates.points, 10));
    assert_eq!(record.unwrap().candidate_hit, Some(false));
    cache.finish_search(first, record);

    // A refused search counts nothing and keeps no context.
    let third = start(&mut cache, &candidates, true).unwrap();
    let (refused, record) = third.run(&[&query[..2]], &candidates, 10, &run, &|| 0);
    assert_eq!(text(refused), "GPU exact query dimension mismatch");
    assert_eq!(record, None);
    cache.finish_search(third, record);
    assert!(start(&mut cache, &candidates, true).unwrap().resident.unwrap().hit);
}
