use vector_segment::error::{OperationError, OperationResult};
use vector_segment::gpu::heterogeneous_exact_batch::{
    BatchBuffer, BatchReply, BatchSubmission, GpuHeterogeneousExactBatchContext,
    HeterogeneousExactRequest,
};
use vector_segment::gpu::search_commands::{GpuVectorStorage, SearchCommand};
use vector_segment::types::ScoredPointOffset;

fn storage() -> GpuVectorStorage {
    GpuVectorStorage {
        dim: 2,
        vector_capacity: 4,
        num_vectors: 1000,
    }
}

fn text<T>(result: OperationResult<T>) -> String {
    match result {
        Err(OperationError::ServiceError { description }) => description,
        _ => panic!("an error was expected"),
    }
}

fn score(query: &[u32], point: u32) -> i32 {
    -((point as i32 - query[0] as i32).abs() * 10 + query[1] as i32)
}

/// Scores what the uploaded words say.
fn run(submission: &BatchSubmission, count: usize) -> OperationResult<BatchReply> {
    let mut candidates = Vec::new();
    let mut queries = Vec::new();
    let mut metadata = Vec::new();
    let mut grid = (0, 0);
    for command in &submission.commands {
        match command {
            SearchCommand::Upload { buffer, words } => match buffer {
                BatchBuffer::CandidateStaging => candidates = words.clone(),
                BatchBuffer::QueryStaging => queries = words.clone(),
                BatchBuffer::MetadataStaging => metadata = words.clone(),
                other => panic!("unexpected buffer {other:?}"),
            },
            SearchCommand::Dispatch { x, y } => grid = (*x, *y),
            SearchCommand::Bind { storage, .. } => assert_eq!(storage.len(), 5),
            _ => {}
        }
    }
    let none = ScoredPointOffset {
        idx: u32::MAX,
        score: i32::MIN,
    };
    let mut points = vec![none; count];
    let mut tiles = 0;
    for (query, words) in queries.chunks(4).zip(metadata.chunks(4)) {
        let (from, len, at) = (words[0] as usize, words[1] as usize, words[2] as usize);
        assert_eq!(words[3], 0);
        for (tile, list) in candidates[from..from + len].chunks(128).enumerate() {
            let mut scored: Vec<ScoredPointOffset> = list
                .iter()
                .map(|point| ScoredPointOffset {
                    idx: *point,
                    score: score(query, *point),
                })
                .collect();
            scored.sort_by(|a, b| b.score.cmp(&a.score));
            scored.truncate(16);
            points[at + tile * 16..at + tile * 16 + scored.len()].copy_from_slice(&scored);
            tiles = tiles.max(tile + 1);
        }
    }
    assert_eq!(grid, (tiles, metadata.len() / 4));
    Ok(BatchReply {
        points,
        command_record_ns: 1,
        queue_submit_ns: 2,
        fence_wait_ns: 3,
        download_ns: 4,
    })
}

#[test]
fn every_query_gets_the_best_of_its_own_candidates() {
    let (context, commands) = GpuHeterogeneousExactBatchContext::new(storage(), 500, 4, 0).unwrap();
    assert_eq!(commands.len(), 11);
    assert_eq!(
        context.resident_device_bytes(),
        500 * 4 * 4 + 4 * 4 * 4 + 4 * 4 * 4 + 4 * 16 * 4 * 8 + 32 * 4
    );
    let lists: Vec<Vec<u32>> = vec![(0..300).collect(), vec![7, 900, 20], (100..228).collect()];
    let queries: Vec<Vec<u32>> = vec![vec![150, 1], vec![800, 2], vec![0, 3]];
    let requests: Vec<HeterogeneousExactRequest> = queries
        .iter()
        .zip(&lists)
        .map(|(query, candidates)| HeterogeneousExactRequest { query, candidates })
        .collect();
    let (results, timings) = context.search(&requests, 5, None, &run, &|| 0).unwrap();
    assert_eq!(timings.total_candidates, 431);
    assert_eq!(timings.download_ns, 4);
    for ((query, list), result) in queries.iter().zip(&lists).zip(&results) {
        let mut expected: Vec<i32> = list.iter().map(|point| score(query, *point)).collect();
        expected.sort_by(|a, b| b.cmp(a));
        expected.truncate(5);
        let found: Vec<i32> = result.iter().map(|point| point.score).collect();
        assert_eq!(found, expected);
        assert!(result.iter().all(|point| list.contains(&point.idx)));
    }
    assert_eq!(results[1].len(), 3);
}

#[test]
fn impossible_batches_are_refused() {
    let (context, _) = GpuHeterogeneousExactBatchContext::new(storage(), 10, 2, 0).unwrap();
    let query = [1u32, 2];
    let candidates = [1u32, 2, 3];
    let request = HeterogeneousExactRequest {
        query: &query,
        candidates: &candidates,
    };
    assert_eq!(
        text(context.search(&[], 1, None, &run, &|| 0)),
        "GPU heterogeneous exact query batch capacity exceeded"
    );
    assert_eq!(
        text(context.search(&[request, request, request], 1, None, &run, &|| 0)),
        "GPU heterogeneous exact query batch capacity exceeded"
    );
    for top in [0, 17] {
        assert_eq!(
            text(context.search(&[request], top, None, &run, &|| 0)),
            "GPU heterogeneous exact top-k is unsupported"
        );
    }
    let many = [0u32; 11];
    let bad = [
        HeterogeneousExactRequest {
            query: &query[..1],
            candidates: &candidates,
        },
        HeterogeneousExactRequest {
            query: &query,
            candidates: &[],
        },
        HeterogeneousExactRequest {
            query: &query,
            candidates: &many,
        },
    ];
    for request in bad {
        assert_eq!(
            text(context.search(&[request], 1, None, &run, &|| 0)),
            "GPU heterogeneous exact request is invalid"
        );
    }
    assert!(context.search(&[request], 1, Some(9), &run, &|| 0).is_ok());
}

#[test]
fn the_buffers_stay_within_the_memory_gate() {
    let make = |candidates, batch| {
        GpuHeterogeneousExactBatchContext::new(storage(), candidates, batch, 0)
    };
    assert_eq!(
        text(make(0, 2)),
        "GPU heterogeneous exact batch capacities are invalid"
    );
    assert_eq!(
        text(make(1, 1)),
        "GPU heterogeneous exact batch capacities are invalid"
    );
    assert_eq!(text(make(usize::MAX, 2)), "GPU candidate capacity overflow");
    assert_eq!(text(make(usize::MAX / 4, 2)), "GPU candidate byte size overflow");
    assert_eq!(
        text(make(10_000_000, 2)),
        "GPU heterogeneous exact batch would reserve 100000192 bytes, above the 67108864-byte memory gate"
    );
    assert!(make(1_000_000, 2).is_ok());
    let wide = GpuVectorStorage {
        dim: 2,
        vector_capacity: usize::MAX / 4,
        num_vectors: 1,
    };
    assert_eq!(
        text(GpuHeterogeneousExactBatchContext::new(wide, 1, 2, 0)),
        "GPU query byte size overflow"
    );
}
