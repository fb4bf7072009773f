//! Exact search over candidates on one queue of a device.

use vstd::prelude::*;

use crate::arith::{
    ceil_div, div_ceil_usize, lemma_ceil_div, max_int, max_usize, min_int, saturating_mul_usize,
};
use crate::buffer_telemetry::BufferType;
use crate::error::{failed, OperationError, OperationResult};
use crate::gpu::block_topk::{
    collect_top, holds_tile_tops, lemma_tiles_are_exact, present, tile_count, BLOCK_TOPK_LIMIT,
    BLOCK_TOPK_TILE_CANDIDATES,
};
use crate::gpu::commands::WORD_SIZE;
use crate::gpu::search_commands::{
    push_step, steps, GpuVectorStorage, Kernel, SearchCommand, SearchStep,
};
use crate::gpu::search_stats::{inner_recorded, GpuExactSearchStats, SubmissionTimes};
use crate::gpu::visibility::WORD_BITS;
use crate::storage::VectorElementType;
use crate::top_k::{lemma_top_ranked_push, top_ranked, FixedLengthPriorityQueue};
use crate::types::{PointOffsetType, ScoreType, ScoredPointOffset};

verus! {

/// Tiles are used from this number of candidates on.
pub const BLOCK_TOPK_MIN_CANDIDATES: usize = 65536;

/// One submission serves at most this many queries.
pub const GPU_EXACT_SUBMISSION_BATCH_LIMIT: usize = 4;

/// Size of a scored point in bytes.
pub const SCORED_POINT_SIZE: usize = 8;

/// The buffers of a search.
#[derive(Clone, Copy, Debug, PartialEq, Eq, Structural)]
pub enum ExactBuffer {
    Candidates,
    CandidateStaging,
    VisibilityStaging,
    Query,
    QueryStaging,
    Scores,
    ScoreStaging,
    /// A buffer that is about to be made and stays on the device.
    NewResident,
    /// A buffer that stays on the device.
    Resident { id: u64 },
}

/// Command of an exact search.
pub type ExactCommand = SearchCommand<ExactBuffer>;

/// What a command of an exact search says.
pub type ExactStep = SearchStep<ExactBuffer>;

/// A buffer that stays on the device, and whether it was there before.
#[derive(Clone, Copy, Debug, PartialEq, Eq, Structural)]
pub struct ResidentBuffer {
    pub id: u64,
    pub hit: bool,
}

/// Exact search on one queue of a device.
#[derive(Clone, Copy, Debug, PartialEq, Eq, Structural)]
pub struct GpuExactSearchContext {
    pub storage: GpuVectorStorage,
    pub candidate_capacity: usize,
    pub visibility_capacity_words: usize,
    pub queue_index: usize,
}

/// Bytes of the places for scores.
pub open spec fn score_bytes(candidate_capacity: nat) -> nat {
    max_int(
        (candidate_capacity * WORD_SIZE) as int,
        (tile_count(candidate_capacity) * BLOCK_TOPK_LIMIT * SCORED_POINT_SIZE
            * GPU_EXACT_SUBMISSION_BATCH_LIMIT) as int,
    ) as nat
}

/// Bytes of the queries of a submission.
pub open spec fn query_bytes(vector_capacity: nat) -> nat {
    min_int(
        (vector_capacity * GPU_EXACT_SUBMISSION_BATCH_LIMIT * WORD_SIZE) as int,
        usize::MAX as int,
    ) as nat
}

/// Words with one bit for every vector, at least one.
pub open spec fn visibility_words(num_vectors: nat) -> nat {
    max_int(ceil_div(num_vectors as int, WORD_BITS as int), 1) as nat
}

/// The buffers of a context.
pub open spec fn context_buffers(
    storage: GpuVectorStorage,
    candidate_capacity: nat,
) -> Seq<ExactStep> {
    let candidates = candidate_capacity * WORD_SIZE as nat;
    let visibility = visibility_words(storage.num_vectors as nat) * WORD_SIZE as nat;
    let queries = query_bytes(storage.vector_capacity as nat);
    let scores = score_bytes(candidate_capacity);
    seq![
        SearchStep::Create {
            buffer: ExactBuffer::Candidates,
            label: "Exact filtered candidate IDs"@,
            buffer_type: BufferType::Storage,
            bytes: candidates,
        },
        SearchStep::Create {
            buffer: ExactBuffer::CandidateStaging,
            label: "Exact filtered candidate upload"@,
            buffer_type: BufferType::CpuToGpu,
            bytes: candidates,
        },
        SearchStep::Create {
            buffer: ExactBuffer::VisibilityStaging,
            label: "Exact filtered visibility upload"@,
            buffer_type: BufferType::CpuToGpu,
            bytes: visibility,
        },
        SearchStep::Create {
            buffer: ExactBuffer::Query,
            label: "Exact filtered query"@,
            buffer_type: BufferType::Storage,
            bytes: queries,
        },
        SearchStep::Create {
            buffer: ExactBuffer::QueryStaging,
            label: "Exact filtered query upload"@,
            buffer_type: BufferType::CpuToGpu,
            bytes: queries,
        },
        SearchStep::Create {
            buffer: ExactBuffer::Scores,
            label: "Exact filtered candidate scores"@,
            buffer_type: BufferType::Storage,
            bytes: scores,
        },
        SearchStep::Create {
            buffer: ExactBuffer::ScoreStaging,
            label: "Exact filtered score download"@,
            buffer_type: BufferType::GpuToCpu,
            bytes: scores,
        },
    ]
}

/// Make a buffer.
fn create(
    commands: &mut Vec<ExactCommand>,
    buffer: ExactBuffer,
    label: &'static str,
    buffer_type: BufferType,
    bytes: usize,
)
    ensures
        steps(final(commands)@) == steps(old(commands)@).push(
            SearchStep::Create { buffer, label: label@, buffer_type, bytes: bytes as nat },
        ),
{
    push_step(commands, SearchCommand::Create { buffer, label, buffer_type, bytes });
}

/// The places of tiles take no more room than the candidates do.
proof fn lemma_tile_places(candidates: nat)
    ensures
        tile_count(candidates) * BLOCK_TOPK_LIMIT * SCORED_POINT_SIZE
            * GPU_EXACT_SUBMISSION_BATCH_LIMIT <= (candidates + 127) * WORD_SIZE,
        tile_count(candidates) <= candidates,
{
    lemma_ceil_div(candidates as int, BLOCK_TOPK_TILE_CANDIDATES as int);
}

impl GpuExactSearchContext {
    /// Sizes can be computed.
    pub open spec fn wf(&self) -> bool {
        &&& (self.candidate_capacity + 127) * WORD_SIZE <= usize::MAX
        &&& self.storage.dim <= self.storage.vector_capacity
        &&& self.storage.vector_capacity * GPU_EXACT_SUBMISSION_BATCH_LIMIT * WORD_SIZE
            <= usize::MAX
        &&& self.visibility_capacity_words == visibility_words(self.storage.num_vectors as nat)
    }

    /// Make the buffers of a context.
    pub fn new(storage: GpuVectorStorage, candidate_capacity: usize, queue_index: usize) -> (r: (
        Self,
        Vec<ExactCommand>,
    ))
        requires
            (candidate_capacity + 127) * WORD_SIZE <= usize::MAX,
        ensures
            r.0 == (GpuExactSearchContext {
                storage,
                candidate_capacity,
                visibility_capacity_words: visibility_words(storage.num_vectors as nat) as usize,
                queue_index,
            }),
            r.0.visibility_capacity_words == visibility_words(storage.num_vectors as nat),
            steps(r.1@) == context_buffers(storage, candidate_capacity as nat),
    {
        proof {
            lemma_tile_places(candidate_capacity as nat);
            lemma_ceil_div(storage.num_vectors as int, WORD_BITS as int);
        }
        let candidate_bytes: usize = candidate_capacity * WORD_SIZE;
        let tiles: usize = div_ceil_usize(candidate_capacity, BLOCK_TOPK_TILE_CANDIDATES);
        let tile_bytes: usize = saturating_mul_usize(
            saturating_mul_usize(
                saturating_mul_usize(tiles, BLOCK_TOPK_LIMIT),
                SCORED_POINT_SIZE,
            ),
            GPU_EXACT_SUBMISSION_BATCH_LIMIT,
        );
        let score_bytes: usize = max_usize(candidate_bytes, tile_bytes);
        let query_bytes: usize = saturating_mul_usize(
            saturating_mul_usize(storage.vector_capacity, GPU_EXACT_SUBMISSION_BATCH_LIMIT),
            WORD_SIZE,
        );
        let visibility_capacity_words: usize = max_usize(
            div_ceil_usize(storage.num_vectors, WORD_BITS),
            1,
        );
        let visibility_bytes: usize = visibility_capacity_words * WORD_SIZE;
        let mut commands: Vec<ExactCommand> = Vec::new();
        create(
            &mut commands,
            ExactBuffer::Candidates,
            "Exact filtered candidate IDs",
            BufferType::Storage,
            candidate_bytes,
        );
        create(
            &mut commands,
            ExactBuffer::CandidateStaging,
            "Exact filtered candidate upload",
            BufferType::CpuToGpu,
            candidate_bytes,
        );
        create(
            &mut commands,
            ExactBuffer::VisibilityStaging,
            "Exact filtered visibility upload",
            BufferType::CpuToGpu,
            visibility_bytes,
        );
        create(
            &mut commands,
            ExactBuffer::Query,
            "Exact filtered query",
            BufferType::Storage,
            query_bytes,
        );
        create(
            &mut commands,
            ExactBuffer::QueryStaging,
            "Exact filtered query upload",
            BufferType::CpuToGpu,
            query_bytes,
        );
        create(
            &mut commands,
            ExactBuffer::Scores,
            "Exact filtered candidate scores",
            BufferType::Storage,
            score_bytes,
        );
        create(
            &mut commands,
            ExactBuffer::ScoreStaging,
            "Exact filtered score download",
            BufferType::GpuToCpu,
            score_bytes,
        );
        proof {
            assert(steps(commands@) =~= context_buffers(storage, candidate_capacity as nat));
        }
        (
            GpuExactSearchContext {
                storage,
                candidate_capacity,
                visibility_capacity_words,
                queue_index,
            },
            commands,
        )
    }
}

/// The elements of every query.
pub open spec fn query_elements(
    queries: Seq<&[VectorElementType]>,
) -> Seq<Seq<VectorElementType>> {
    queries.map_values(|query: &[VectorElementType]| query@)
}

/// The queries one after the other, each filled up with zeros to the same number of elements.
pub open spec fn padded_queries(
    queries: Seq<Seq<VectorElementType>>,
    capacity: nat,
) -> Seq<VectorElementType>
    decreases queries.len(),
{
    if queries.len() == 0 {
        Seq::empty()
    } else {
        padded_queries(queries.drop_last(), capacity) + padded(queries.last(), capacity)
    }
}

/// A query filled up with zeros.
pub open spec fn padded(query: Seq<VectorElementType>, capacity: nat) -> Seq<VectorElementType> {
    Seq::new(
        capacity,
        |i: int|
            if i < query.len() {
                query[i]
            } else {
                0
            },
    )
}

/// Add a query filled up with zeros.
pub(crate) fn push_padded(
    words: &mut Vec<VectorElementType>,
    query: &[VectorElementType],
    capacity: usize,
)
    requires
        query@.len() <= capacity,
    ensures
        final(words)@ == old(words)@ + padded(query@, capacity as nat),
{
    let ghost before = words@;
    let ghost all = padded(query@, capacity as nat);
    let mut i: usize = 0;
    while i < capacity
        invariant
            i <= capacity,
            query@.len() <= capacity,
            all == padded(query@, capacity as nat),
            words@ == before + all.take(i as int),
        decreases capacity - i,
    {
        let element: VectorElementType = if i < query.len() {
            query[i]
        } else {
            0
        };
        words.push(element);
        proof {
            assert(all.take(i + 1) =~= all.take(i as int).push(element));
            assert(words@ =~= before + all.take(i + 1));
        }
        i = i + 1;
    }
    proof {
        assert(all.take(i as int) =~= all);
    }
}

/// Tiles are used: the candidates stay on the device, and there are many of them for few results.
pub open spec fn uses_block_topk(candidates: nat, top: nat, resident: bool) -> bool {
    resident && candidates >= BLOCK_TOPK_MIN_CANDIDATES && top <= BLOCK_TOPK_LIMIT
}

/// The shader of a search.
pub open spec fn exact_kernel(visibility: bool, block_topk: bool) -> Kernel {
    if visibility {
        if block_topk {
            Kernel::ExactVisibleBlockTopk
        } else {
            Kernel::ExactVisibleScore
        }
    } else {
        if block_topk {
            Kernel::ExactBlockTopk
        } else {
            Kernel::ExactScore
        }
    }
}

/// Number of places that a query gets.
pub open spec fn output_per_query(candidates: nat, block_topk: bool) -> nat {
    if block_topk {
        tile_count(candidates) * BLOCK_TOPK_LIMIT as nat
    } else {
        candidates
    }
}

/// Size of a place.
pub open spec fn output_size(block_topk: bool) -> nat {
    if block_topk {
        SCORED_POINT_SIZE as nat
    } else {
        WORD_SIZE as nat
    }
}

/// The commands of a submission.
pub open spec fn submission_steps(
    queries: Seq<Seq<VectorElementType>>,
    candidates: Seq<PointOffsetType>,
    capacity: nat,
    top: nat,
    resident: Option<u64>,
    visibility: Option<u64>,
) -> Seq<ExactStep> {
    let block_topk = uses_block_topk(candidates.len(), top, resident is Some);
    let words = padded_queries(queries, capacity);
    let upload_candidates: Seq<ExactStep> = if resident is Some {
        Seq::empty()
    } else {
        seq![SearchStep::Upload { buffer: ExactBuffer::CandidateStaging, words: candidates }]
    };
    let copy_candidates: Seq<ExactStep> = if resident is Some {
        Seq::empty()
    } else {
        seq![
            SearchStep::Copy {
                source: ExactBuffer::CandidateStaging,
                target: ExactBuffer::Candidates,
                bytes: candidates.len() * WORD_SIZE as nat,
            },
        ]
    };
    let uploaded: Seq<ExactBuffer> = if resident is Some {
        seq![ExactBuffer::Query]
    } else {
        seq![ExactBuffer::Query, ExactBuffer::Candidates]
    };
    let candidate_buffer = match resident {
        Some(id) => ExactBuffer::Resident { id },
        None => ExactBuffer::Candidates,
    };
    let storage: Seq<ExactBuffer> = match visibility {
        Some(id) => seq![
            candidate_buffer,
            ExactBuffer::Query,
            ExactBuffer::Scores,
            ExactBuffer::Resident { id },
        ],
        None => seq![candidate_buffer, ExactBuffer::Query, ExactBuffer::Scores],
    };
    let output = output_per_query(candidates.len(), block_topk) * queries.len();
    upload_candidates + seq![
        SearchStep::Upload { buffer: ExactBuffer::QueryStaging, words },
    ] + copy_candidates + seq![
        SearchStep::Copy {
            source: ExactBuffer::QueryStaging,
            target: ExactBuffer::Query,
            bytes: words.len() * WORD_SIZE as nat,
        },
        SearchStep::Barrier { buffers: uploaded },
        SearchStep::Bind { kernel: exact_kernel(visibility is Some, block_topk), storage },
        SearchStep::Dispatch {
            x: if block_topk {
                tile_count(candidates.len())
            } else {
                candidates.len()
            },
            y: queries.len(),
        },
        SearchStep::Barrier { buffers: seq![ExactBuffer::Scores] },
        SearchStep::Copy {
            source: ExactBuffer::Scores,
            target: ExactBuffer::ScoreStaging,
            bytes: output * output_size(block_topk),
        },
        SearchStep::Run,
    ]
}

/// Commands of a submission and what comes back.
#[derive(Debug)]
pub struct ExactSubmission {
    pub commands: Vec<ExactCommand>,
    /// Scored points come back for every tile, not scores for every candidate.
    pub block_topk: bool,
    /// Number of scored points or scores that come back.
    pub output_count: usize,
    /// How many of them belong to one query.
    pub output_count_per_query: usize,
}

/// The submission does what a search needs.
pub open spec fn is_submission_of(
    submission: ExactSubmission,
    queries: Seq<Seq<VectorElementType>>,
    candidates: Seq<PointOffsetType>,
    capacity: nat,
    top: nat,
    resident: Option<u64>,
    visibility: Option<u64>,
) -> bool {
    &&& steps(submission.commands@) == submission_steps(
        queries,
        candidates,
        capacity,
        top,
        resident,
        visibility,
    )
    &&& submission.block_topk == uses_block_topk(candidates.len(), top, resident is Some)
    &&& submission.output_count_per_query == output_per_query(
        candidates.len(),
        submission.block_topk,
    )
    &&& submission.output_count == submission.output_count_per_query * queries.len()
}

/// Why a search is refused.
pub open spec fn batch_fault(
    context: GpuExactSearchContext,
    queries: Seq<Seq<VectorElementType>>,
    candidates: nat,
    top: nat,
    resident: bool,
) -> Option<Seq<char>> {
    if candidates > context.candidate_capacity {
        Some("GPU exact candidate capacity exceeded"@)
    } else if queries.len() == 0 || queries.len() > GPU_EXACT_SUBMISSION_BATCH_LIMIT {
        Some("GPU exact query batch capacity exceeded"@)
    } else if exists|i: int| 0 <= i < queries.len() && (#[trigger] queries[i]).len()
        != context.storage.dim {
        Some("GPU exact query dimension mismatch"@)
    } else if candidates > 0 && top > 0 && queries.len() > 1 && !uses_block_topk(
        candidates,
        top,
        resident,
    ) {
        Some("GPU exact multi-query submission requires block top-k"@)
    } else {
        None
    }
}

/// Copy a list of words.
pub(crate) fn copied(words: &[u32]) -> (r: Vec<u32>)
    ensures
        r@ == words@,
{
    let mut r: Vec<u32> = Vec::new();
    let mut i: usize = 0;
    while i < words.len()
        invariant
            i <= words@.len(),
            r@ == words@.take(i as int),
        decreases words@.len() - i,
    {
        r.push(words[i]);
        proof {
            assert(words@.take(i + 1) =~= words@.take(i as int).push(words@[i as int]));
        }
        i = i + 1;
    }
    proof {
        assert(words@.take(i as int) =~= words@);
    }
    r
}

impl GpuExactSearchContext {
    /// Check a search and put its commands together. There is nothing to submit without
    /// candidates or when no result is wanted.
    pub fn plan_batch(
        &self,
        queries: &[&[VectorElementType]],
        candidates: &[PointOffsetType],
        top: usize,
        resident: Option<u64>,
        visibility: Option<u64>,
    ) -> (r: OperationResult<Option<ExactSubmission>>)
        requires
            self.wf(),
        ensures
            match batch_fault(
                *self,
                query_elements(queries@),
                candidates@.len(),
                top as nat,
                resident is Some,
            ) {
                Some(text) => failed(r, text),
                None => r is Ok,
            },
            r matches Ok(submission) ==> (submission is None <==> candidates@.len() == 0 || top
                == 0),
            r matches Ok(Some(submission)) ==> is_submission_of(
                submission,
                query_elements(queries@),
                candidates@,
                self.storage.vector_capacity as nat,
                top as nat,
                resident,
                visibility,
            ),
    {
        let ghost elements = query_elements(queries@);
        if candidates.len() > self.candidate_capacity {
            return Err(OperationError::service_error("GPU exact candidate capacity exceeded"));
        }
        if queries.len() == 0 || queries.len() > GPU_EXACT_SUBMISSION_BATCH_LIMIT {
            return Err(OperationError::service_error("GPU exact query batch capacity exceeded"));
        }
        let mut i: usize = 0;
        while i < queries.len()
            invariant
                i <= queries@.len(),
                0 < queries@.len() <= GPU_EXACT_SUBMISSION_BATCH_LIMIT,
                candidates@.len() <= self.candidate_capacity,
                elements == query_elements(queries@),
                forall|j: int| 0 <= j < i ==> (#[trigger] elements[j]).len() == self.storage.dim,
            decreases queries@.len() - i,
        {
            proof {
                assert(elements[i as int] == queries@[i as int]@);
            }
            if queries[i].len() != self.storage.dim {
                return Err(OperationError::service_error("GPU exact query dimension mismatch"));
            }
            i = i + 1;
        }
        if candidates.len() == 0 || top == 0 {
            return Ok(None);
        }
        let capacity: usize = self.storage.vector_capacity;
        let mut padded_words: Vec<VectorElementType> = Vec::new();
        let mut k: usize = 0;
        proof {
            assert(padded_queries(elements.take(0), capacity as nat) =~= Seq::empty());
        }
        while k < queries.len()
            invariant
                self.wf(),
                k <= queries@.len() <= GPU_EXACT_SUBMISSION_BATCH_LIMIT,
                capacity == self.storage.vector_capacity,
                elements == query_elements(queries@),
                forall|j: int|
                    0 <= j < elements.len() ==> (#[trigger] elements[j]).len()
                        == self.storage.dim,
                padded_words@ == padded_queries(elements.take(k as int), capacity as nat),
                padded_words@.len() == k * capacity,
            decreases queries@.len() - k,
        {
            proof {
                assert(elements[k as int] == queries@[k as int]@);
                assert(elements.take(k + 1).drop_last() =~= elements.take(k as int));
                assert(elements.take(k + 1).last() == elements[k as int]);
                assert((k + 1) * capacity == k * capacity + capacity) by (nonlinear_arith);
            }
            push_padded(&mut padded_words, queries[k], capacity);
            k = k + 1;
        }
        proof {
            assert(elements.take(k as int) =~= elements);
            assert(k * capacity <= GPU_EXACT_SUBMISSION_BATCH_LIMIT * capacity) by (nonlinear_arith)
                requires
                    k <= GPU_EXACT_SUBMISSION_BATCH_LIMIT,
            ;
        }
        let use_block_topk: bool = resident.is_some() && candidates.len()
            >= BLOCK_TOPK_MIN_CANDIDATES && top <= BLOCK_TOPK_LIMIT;
        if queries.len() > 1 && !use_block_topk {
            return Err(
                OperationError::service_error(
                    "GPU exact multi-query submission requires block top-k",
                ),
            );
        }
        proof {
            lemma_tile_places(candidates@.len());
        }
        let block_count: usize = div_ceil_usize(candidates.len(), BLOCK_TOPK_TILE_CANDIDATES);
        let output_count_per_query: usize = if use_block_topk {
            block_count * BLOCK_TOPK_LIMIT
        } else {
            candidates.len()
        };
        proof {
            let per = output_count_per_query as int;
            let q = queries@.len() as int;
            if use_block_topk {
                assert(per * q * SCORED_POINT_SIZE <= per * GPU_EXACT_SUBMISSION_BATCH_LIMIT
                    * SCORED_POINT_SIZE && per * q <= per * q * SCORED_POINT_SIZE)
                    by (nonlinear_arith)
                    requires
                        0 <= per,
                        0 <= q <= GPU_EXACT_SUBMISSION_BATCH_LIMIT,
                ;
            } else {
                assert(per * q == per) by (nonlinear_arith)
                    requires
                        q == 1,
                ;
            }
        }
        let output_count: usize = output_count_per_query * queries.len();
        let output_bytes: usize = if use_block_topk {
            output_count * SCORED_POINT_SIZE
        } else {
            output_count * WORD_SIZE
        };
        let query_bytes: usize = padded_words.len() * WORD_SIZE;
        let mut commands: Vec<ExactCommand> = Vec::new();
        let candidate_buffer: ExactBuffer = match resident {
            Some(id) => ExactBuffer::Resident { id },
            None => ExactBuffer::Candidates,
        };
        let mut uploaded: Vec<ExactBuffer> = Vec::new();
        uploaded.push(ExactBuffer::Query);
        if resident.is_none() {
            push_step(
                &mut commands,
                SearchCommand::Upload {
                    buffer: ExactBuffer::CandidateStaging,
                    words: copied(candidates),
                },
            );
            uploaded.push(ExactBuffer::Candidates);
        }
        push_step(
            &mut commands,
            SearchCommand::Upload { buffer: ExactBuffer::QueryStaging, words: padded_words },
        );
        if resident.is_none() {
            push_step(
                &mut commands,
                SearchCommand::Copy {
                    source: ExactBuffer::CandidateStaging,
                    target: ExactBuffer::Candidates,
                    bytes: candidates.len() * WORD_SIZE,
                },
            );
        }
        push_step(
            &mut commands,
            SearchCommand::Copy {
                source: ExactBuffer::QueryStaging,
                target: ExactBuffer::Query,
                bytes: query_bytes,
            },
        );
        push_step(&mut commands, SearchCommand::Barrier { buffers: uploaded });
        let kernel: Kernel = match (visibility.is_some(), use_block_topk) {
            (false, false) => Kernel::ExactScore,
            (false, true) => Kernel::ExactBlockTopk,
            (true, false) => Kernel::ExactVisibleScore,
            (true, true) => Kernel::ExactVisibleBlockTopk,
        };
        let mut bound: Vec<ExactBuffer> = Vec::new();
        bound.push(candidate_buffer);
        bound.push(ExactBuffer::Query);
        bound.push(ExactBuffer::Scores);
        match visibility {
            Some(id) => {
                bound.push(ExactBuffer::Resident { id });
            },
            None => {},
        }
        push_step(&mut commands, SearchCommand::Bind { kernel, storage: bound });
        let groups: usize = if use_block_topk {
            block_count
        } else {
            candidates.len()
        };
        push_step(&mut commands, SearchCommand::Dispatch { x: groups, y: queries.len() });
        let mut written: Vec<ExactBuffer> = Vec::new();
        written.push(ExactBuffer::Scores);
        push_step(&mut commands, SearchCommand::Barrier { buffers: written });
        push_step(
            &mut commands,
            SearchCommand::Copy {
                source: ExactBuffer::Scores,
                target: ExactBuffer::ScoreStaging,
                bytes: output_bytes,
            },
        );
        push_step(&mut commands, SearchCommand::Run);
        proof {
            let expected = submission_steps(
                elements,
                candidates@,
                capacity as nat,
                top as nat,
                resident,
                visibility,
            );
            let n = steps(commands@).len();
            assert(uploaded@ =~= if resident is Some {
                seq![ExactBuffer::Query]
            } else {
                seq![ExactBuffer::Query, ExactBuffer::Candidates]
            });
            assert(bound@ =~= match visibility {
                Some(id) => seq![
                    candidate_buffer,
                    ExactBuffer::Query,
                    ExactBuffer::Scores,
                    ExactBuffer::Resident { id },
                ],
                None => seq![candidate_buffer, ExactBuffer::Query, ExactBuffer::Scores],
            });
            assert(written@ =~= seq![ExactBuffer::Scores]);
            assert(steps(commands@) =~= expected);
        }
        Ok(
            Some(
                ExactSubmission {
                    commands,
                    block_topk: use_block_topk,
                    output_count,
                    output_count_per_query,
                },
            ),
        )
    }
}

/// What comes back from a submission.
#[derive(Debug)]
pub enum ExactOutput {
    /// Scored points of every tile.
    Blocks(Vec<ScoredPointOffset>),
    /// Scores of every candidate.
    Scores(Vec<ScoreType>),
}

/// What comes back from a submission, with the times that its parts took.
#[derive(Debug)]
pub struct ExactReply {
    pub output: ExactOutput,
    pub gpu_d2h_ns: u64,
    pub command_record_ns: u64,
    pub queue_submit_ns: u64,
    pub fence_wait_ns: u64,
    pub download_ns: u64,
}

/// As much came back as was asked for.
pub open spec fn answers(submission: ExactSubmission, output: ExactOutput) -> bool {
    match output {
        ExactOutput::Blocks(points) => submission.block_topk && points@.len()
            == submission.output_count,
        ExactOutput::Scores(scores) => !submission.block_topk && scores@.len()
            == submission.output_count,
    }
}

/// Candidates with their scores.
pub open spec fn scored_candidates(
    candidates: Seq<PointOffsetType>,
    scores: Seq<ScoreType>,
) -> Seq<ScoredPointOffset> {
    Seq::new(
        candidates.len(),
        |i: int| ScoredPointOffset { idx: candidates[i], score: scores[i] },
    )
}

/// The best points of a query.
pub open spec fn query_result(
    output: ExactOutput,
    candidates: Seq<PointOffsetType>,
    per_query: nat,
    top: nat,
    query: int,
) -> Seq<ScoredPointOffset> {
    match output {
        ExactOutput::Blocks(points) => top_ranked(
            present(points@.subrange(query * per_query, (query + 1) * per_query)),
            top,
        ),
        ExactOutput::Scores(scores) => top_ranked(scored_candidates(candidates, scores@), top),
    }
}

/// The best points of every query.
pub open spec fn batch_results(
    results: Seq<Vec<ScoredPointOffset>>,
    output: ExactOutput,
    candidates: Seq<PointOffsetType>,
    per_query: nat,
    top: nat,
    query_count: nat,
) -> bool {
    &&& results.len() == query_count
    &&& forall|i: int|
        0 <= i < results.len() ==> (#[trigger] results[i])@ == query_result(
            output,
            candidates,
            per_query,
            top,
            i,
        )
}

/// The best candidates by their scores.
fn collect_scores(candidates: &[PointOffsetType], scores: &Vec<ScoreType>, top: usize) -> (r: Vec<
    ScoredPointOffset,
>)
    requires
        candidates@.len() == scores@.len(),
    ensures
        r@ == top_ranked(scored_candidates(candidates@, scores@), top as nat),
{
    let ghost all = scored_candidates(candidates@, scores@);
    let mut queue = FixedLengthPriorityQueue::new(top);
    let mut i: usize = 0;
    proof {
        assert(top_ranked(all.take(0), top as nat) =~= Seq::empty());
    }
    while i < candidates.len()
        invariant
            i <= candidates@.len() == scores@.len(),
            all == scored_candidates(candidates@, scores@),
            queue.wf(),
            queue.length() == top,
            queue@ == top_ranked(all.take(i as int), top as nat),
        decreases candidates@.len() - i,
    {
        let point = ScoredPointOffset { idx: candidates[i], score: scores[i] };
        proof {
            lemma_top_ranked_push(all.take(i as int), point, top as nat);
            assert(all.take(i + 1) =~= all.take(i as int).push(point));
        }
        queue.push(point);
        i = i + 1;
    }
    proof {
        assert(all.take(i as int) =~= all);
    }
    queue.into_sorted_vec()
}

/// The best points of every query from what came back.
pub fn collect_batch(
    submission: &ExactSubmission,
    output: &ExactOutput,
    candidates: &[PointOffsetType],
    top: usize,
    query_count: usize,
) -> (results: Vec<Vec<ScoredPointOffset>>)
    requires
        answers(*submission, *output),
        submission.output_count == submission.output_count_per_query * query_count,
        !submission.block_topk ==> query_count == 1 && submission.output_count
            == candidates@.len(),
    ensures
        batch_results(
            results@,
            *output,
            candidates@,
            submission.output_count_per_query as nat,
            top as nat,
            query_count as nat,
        ),
{
    let mut results: Vec<Vec<ScoredPointOffset>> = Vec::new();
    match output {
        ExactOutput::Blocks(points) => {
            let per_query: usize = submission.output_count_per_query;
            let mut from: usize = 0;
            let mut i: usize = 0;
            while i < query_count
                invariant
                    i <= query_count,
                    per_query == submission.output_count_per_query,
                    *output == ExactOutput::Blocks(*points),
                    points@.len() == per_query * query_count,
                    from == i * per_query,
                    results@.len() == i,
                    forall|j: int|
                        0 <= j < i ==> (#[trigger] results@[j])@ == query_result(
                            *output,
                            candidates@,
                            per_query as nat,
                            top as nat,
                            j,
                        ),
                decreases query_count - i,
            {
                proof {
                    assert((i + 1) * per_query == i * per_query + per_query && (i + 1) * per_query
                        <= query_count * per_query && query_count * per_query == per_query
                        * query_count) by (nonlinear_arith)
                        requires
                            0 <= i < query_count,
                    ;
                    assert(points@.len() == points.len());
                }
                let to: usize = from + per_query;
                results.push(collect_top(points, from, to, top));
                from = to;
                i = i + 1;
            }
        },
        ExactOutput::Scores(scores) => {
            results.push(collect_scores(candidates, scores, top));
        },
    }
    results
}

/// The call can be made and answers what was asked.
pub open spec fn can_run<R: Fn(&ExactSubmission) -> OperationResult<ExactReply>>(run: &R) -> bool {
    &&& forall|submission: &ExactSubmission| #[trigger] run.requires((submission,))
    &&& forall|submission: &ExactSubmission, reply: ExactReply| #[trigger]
        run.ensures((submission,), Ok(reply)) ==> answers(*submission, reply.output)
}

/// A submission was answered like this.
pub open spec fn ran<R: Fn(&ExactSubmission) -> OperationResult<ExactReply>>(
    run: &R,
    queries: Seq<Seq<VectorElementType>>,
    candidates: Seq<PointOffsetType>,
    capacity: nat,
    top: nat,
    resident: Option<u64>,
    visibility: Option<u64>,
    reply: OperationResult<ExactReply>,
) -> bool {
    exists|submission: &ExactSubmission|
        {
            &&& #[trigger] run.ensures((submission,), reply)
            &&& is_submission_of(
                *submission,
                queries,
                candidates,
                capacity,
                top,
                resident,
                visibility,
            )
        }
}

/// Where a search looks for its data: buffers that stay on the device.
pub open spec fn buffer_id(buffer: Option<ResidentBuffer>) -> Option<u64> {
    match buffer {
        Some(buffer) => Some(buffer.id),
        None => None,
    }
}

/// Whether the buffer was there before.
pub open spec fn buffer_hit(buffer: Option<ResidentBuffer>) -> Option<bool> {
    match buffer {
        Some(buffer) => Some(buffer.hit),
        None => None,
    }
}

/// The times of a reply, as far as the device tells them.
pub open spec fn device_times(times: SubmissionTimes, reply: ExactReply) -> bool {
    &&& times.h2d_ns == 0
    &&& times.gpu_d2h_ns == reply.gpu_d2h_ns
    &&& times.command_record_ns == reply.command_record_ns
    &&& times.queue_submit_ns == reply.queue_submit_ns
    &&& times.fence_wait_ns == reply.fence_wait_ns
    &&& times.download_ns == reply.download_ns
}

/// What a search gives and what it counts.
pub open spec fn batch_outcome<
    R: Fn(&ExactSubmission) -> OperationResult<ExactReply>,
    C: Fn() -> u64,
>(
    context: GpuExactSearchContext,
    run: &R,
    clock: &C,
    queries: Seq<Seq<VectorElementType>>,
    candidates: Seq<PointOffsetType>,
    top: nat,
    resident: Option<ResidentBuffer>,
    visibility: Option<ResidentBuffer>,
    resident_candidate_ns: u64,
    resident_visibility_ns: u64,
    before: GpuExactSearchStats,
    after: GpuExactSearchStats,
    r: OperationResult<Vec<Vec<ScoredPointOffset>>>,
) -> bool {
    match batch_fault(context, queries, candidates.len(), top, resident is Some) {
        Some(text) => failed(r, text) && after == before,
        None => if candidates.len() == 0 || top == 0 {
            &&& after == before
            &&& r matches Ok(results) && results@.len() == queries.len() && forall|i: int|
                0 <= i < results@.len() ==> (#[trigger] results@[i])@.len() == 0
        } else {
            exists|reply: OperationResult<ExactReply>|
                {
                    &&& #[trigger] ran(
                        run,
                        queries,
                        candidates,
                        context.storage.vector_capacity as nat,
                        top,
                        buffer_id(resident),
                        buffer_id(visibility),
                        reply,
                    )
                    &&& match reply {
                        Err(error) => r == Err::<Vec<Vec<ScoredPointOffset>>, OperationError>(
                            error,
                        ) && after == before,
                        Ok(reply) => {
                            &&& r matches Ok(results) && batch_results(
                                results@,
                                reply.output,
                                candidates,
                                output_per_query(
                                    candidates.len(),
                                    uses_block_topk(candidates.len(), top, resident is Some),
                                ),
                                top,
                                queries.len(),
                            )
                            &&& exists|times: SubmissionTimes|
                                {
                                    &&& #[trigger] device_times(times, reply)
                                    &&& timed(clock, times.prepare_ns)
                                    &&& timed(clock, times.cpu_topk_ns)
                                    &&& times.resident_candidate_ns == resident_candidate_ns
                                    &&& times.resident_visibility_ns == resident_visibility_ns
                                    &&& after == inner_recorded(
                                        before,
                                        queries.len() as usize,
                                        candidates.len() as usize,
                                        times,
                                        buffer_hit(resident),
                                        buffer_hit(visibility),
                                    )
                                }
                        },
                    }
                }
        },
    }
}

/// What a search that reached the device adds to the counters.
#[derive(Clone, Copy, Debug, PartialEq, Eq, Structural)]
pub struct BatchRecord {
    pub query_count: usize,
    pub candidates: usize,
    pub times: SubmissionTimes,
    pub candidate_hit: Option<bool>,
    pub visibility_hit: Option<bool>,
}

/// The counters after a search.
pub open spec fn with_record(
    before: GpuExactSearchStats,
    record: Option<BatchRecord>,
) -> GpuExactSearchStats {
    match record {
        Some(record) => inner_recorded(
            before,
            record.query_count,
            record.candidates,
            record.times,
            record.candidate_hit,
            record.visibility_hit,
        ),
        None => before,
    }
}

/// Count a search.
pub(crate) fn count_batch(stats: &mut GpuExactSearchStats, record: Option<BatchRecord>)
    ensures
        *final(stats) == with_record(*old(stats), record),
{
    match record {
        Some(record) => {
            stats.record_inner(
                record.query_count,
                record.candidates,
                record.times,
                record.candidate_hit,
                record.visibility_hit,
            );
        },
        None => {},
    }
}

/// What a search gives and what it adds to the counters, whatever they were before.
pub open spec fn batch_ran<
    R: Fn(&ExactSubmission) -> OperationResult<ExactReply>,
    C: Fn() -> u64,
>(
    context: GpuExactSearchContext,
    run: &R,
    clock: &C,
    queries: Seq<Seq<VectorElementType>>,
    candidates: Seq<PointOffsetType>,
    top: nat,
    resident: Option<ResidentBuffer>,
    visibility: Option<ResidentBuffer>,
    resident_candidate_ns: u64,
    resident_visibility_ns: u64,
    r: OperationResult<Vec<Vec<ScoredPointOffset>>>,
    record: Option<BatchRecord>,
) -> bool {
    forall|before: GpuExactSearchStats|
        #![trigger with_record(before, record)]
        batch_outcome(
            context,
            run,
            clock,
            queries,
            candidates,
            top,
            resident,
            visibility,
            resident_candidate_ns,
            resident_visibility_ns,
            before,
            with_record(before, record),
            r,
        )
}

/// The time passed from a given reading to a reading of the clock. It is zero when the clock went
/// back.
pub open spec fn timed_from<C: Fn() -> u64>(clock: &C, from: u64, ns: u64) -> bool {
    exists|to: u64| #[trigger] clock.ensures((), to) && ns == max_int(to - from, 0)
}

/// The time passed between two readings of the clock.
pub open spec fn timed<C: Fn() -> u64>(clock: &C, ns: u64) -> bool {
    exists|from: u64| clock.ensures((), from) && #[trigger] timed_from(clock, from, ns)
}

/// Time that passed since a reading.
pub(crate) fn since<C: Fn() -> u64>(clock: &C, from: u64) -> (ns: u64)
    requires
        clock.requires(()),
    ensures
        timed_from(clock, from, ns),
{
    let to: u64 = clock();
    proof {
        assert(clock.ensures((), to));
    }
    if to >= from {
        to - from
    } else {
        0
    }
}

impl GpuExactSearchContext {
    /// Search candidates exactly, and tell what to count. `run` performs a submission and `clock`
    /// tells the time in nanoseconds.
    pub fn run_batch<
        R: Fn(&ExactSubmission) -> OperationResult<ExactReply>,
        C: Fn() -> u64,
    >(
        &self,
        queries: &[&[VectorElementType]],
        candidates: &[PointOffsetType],
        top: usize,
        resident: Option<ResidentBuffer>,
        visibility: Option<ResidentBuffer>,
        resident_candidate_ns: u64,
        resident_visibility_ns: u64,
        run: &R,
        clock: &C,
    ) -> (r: (OperationResult<Vec<Vec<ScoredPointOffset>>>, Option<BatchRecord>))
        requires
            self.wf(),
            can_run(run),
            clock.requires(()),
        ensures
            batch_ran(
                *self,
                run,
                clock,
                query_elements(queries@),
                candidates@,
                top as nat,
                resident,
                visibility,
                resident_candidate_ns,
                resident_visibility_ns,
                r.0,
                r.1,
            ),
    {
        let ghost elements = query_elements(queries@);
        let started: u64 = clock();
        let resident_id: Option<u64> = match resident {
            Some(buffer) => Some(buffer.id),
            None => None,
        };
        let visibility_id: Option<u64> = match visibility {
            Some(buffer) => Some(buffer.id),
            None => None,
        };
        let submission = match self.plan_batch(
            queries,
            candidates,
            top,
            resident_id,
            visibility_id,
        ) {
            Ok(Some(submission)) => submission,
            Ok(None) => {
                let mut results: Vec<Vec<ScoredPointOffset>> = Vec::new();
                let mut i: usize = 0;
                while i < queries.len()
                    invariant
                        i <= queries@.len(),
                        results@.len() == i,
                        forall|j: int| 0 <= j < i ==> (#[trigger] results@[j])@.len() == 0,
                    decreases queries@.len() - i,
                {
                    results.push(Vec::new());
                    i = i + 1;
                }
                return (Ok(results), None);
            },
            Err(error) => {
                return (Err(error), None);
            },
        };
        let prepare_ns: u64 = since(clock, started);
        let reply = match run(&submission) {
            Ok(reply) => reply,
            Err(error) => {
                proof {
                    let reply: OperationResult<ExactReply> = Err(error);
                    assert(run.ensures((&submission,), reply));
                    assert(ran(
                        run,
                        elements,
                        candidates@,
                        self.storage.vector_capacity as nat,
                        top as nat,
                        buffer_id(resident),
                        buffer_id(visibility),
                        reply,
                    ));
                }
                return (Err(error), None);
            },
        };
        proof {
            assert(run.ensures((&submission,), Ok(reply)));
            assert(ran(
                run,
                elements,
                candidates@,
                self.storage.vector_capacity as nat,
                top as nat,
                buffer_id(resident),
                buffer_id(visibility),
                Ok(reply),
            ));
            if !submission.block_topk {
                assert(queries@.len() == 1);
                assert(candidates@.len() * 1 == candidates@.len());
            }
        }
        let topk_started: u64 = clock();
        let results = collect_batch(&submission, &reply.output, candidates, top, queries.len());
        let cpu_topk_ns: u64 = since(clock, topk_started);
        let times = SubmissionTimes {
            prepare_ns,
            h2d_ns: 0,
            gpu_d2h_ns: reply.gpu_d2h_ns,
            command_record_ns: reply.command_record_ns,
            queue_submit_ns: reply.queue_submit_ns,
            fence_wait_ns: reply.fence_wait_ns,
            download_ns: reply.download_ns,
            cpu_topk_ns,
            resident_candidate_ns,
            resident_visibility_ns,
        };
        let candidate_hit: Option<bool> = match resident {
            Some(buffer) => Some(buffer.hit),
            None => None,
        };
        let visibility_hit: Option<bool> = match visibility {
            Some(buffer) => Some(buffer.hit),
            None => None,
        };
        let record = BatchRecord {
            query_count: queries.len(),
            candidates: candidates.len(),
            times,
            candidate_hit,
            visibility_hit,
        };
        proof {
            assert(device_times(times, reply));
        }
        (Ok(results), Some(record))
    }

    /// Search candidates exactly. `run` performs a submission and `clock` tells the time in
    /// nanoseconds.
    pub fn search_batch<
        R: Fn(&ExactSubmission) -> OperationResult<ExactReply>,
        C: Fn() -> u64,
    >(
        &self,
        stats: &mut GpuExactSearchStats,
        queries: &[&[VectorElementType]],
        candidates: &[PointOffsetType],
        top: usize,
        resident: Option<ResidentBuffer>,
        visibility: Option<ResidentBuffer>,
        resident_candidate_ns: u64,
        resident_visibility_ns: u64,
        run: &R,
        clock: &C,
    ) -> (r: OperationResult<Vec<Vec<ScoredPointOffset>>>)
        requires
            self.wf(),
            can_run(run),
            clock.requires(()),
        ensures
            batch_outcome(
                *self,
                run,
                clock,
                query_elements(queries@),
                candidates@,
                top as nat,
                resident,
                visibility,
                resident_candidate_ns,
                resident_visibility_ns,
                *old(stats),
                *final(stats),
                r,
            ),
    {
        let (r, record) = self.run_batch(
            queries,
            candidates,
            top,
            resident,
            visibility,
            resident_candidate_ns,
            resident_visibility_ns,
            run,
            clock,
        );
        let ghost before = *stats;
        count_batch(stats, record);
        proof {
            assert(*stats == with_record(before, record));
        }
        r
    }

    /// Put candidates into a buffer that stays on the device.
    pub fn upload_resident_candidates(&self, candidates: &[PointOffsetType]) -> (commands: Vec<
        ExactCommand,
    >)
        requires
            candidates@.len() * WORD_SIZE <= usize::MAX,
        ensures
            steps(commands@) == resident_steps(
                "Resident exact filtered candidate IDs"@,
                ExactBuffer::CandidateStaging,
                candidates@,
            ),
    {
        upload_resident(
            "Resident exact filtered candidate IDs",
            ExactBuffer::CandidateStaging,
            candidates,
        )
    }

    /// Put visibility words into a buffer that stays on the device.
    pub fn upload_resident_visibility(&self, words: &[u32]) -> (r: OperationResult<
        Vec<ExactCommand>,
    >)
        requires
            self.visibility_capacity_words * WORD_SIZE <= usize::MAX,
        ensures
            if words@.len() == 0 || words@.len() > self.visibility_capacity_words {
                failed(r, "GPU visibility word capacity exceeded"@)
            } else {
                r matches Ok(commands) && steps(commands@) == resident_steps(
                    "Resident exact filtered visibility"@,
                    ExactBuffer::VisibilityStaging,
                    words@,
                )
            },
    {
        if words.len() == 0 || words.len() > self.visibility_capacity_words {
            return Err(OperationError::service_error("GPU visibility word capacity exceeded"));
        }
        Ok(
            upload_resident(
                "Resident exact filtered visibility",
                ExactBuffer::VisibilityStaging,
                words,
            ),
        )
    }
}

/// The commands that put words into a buffer that stays on the device.
pub open spec fn resident_steps(
    label: Seq<char>,
    staging: ExactBuffer,
    words: Seq<u32>,
) -> Seq<ExactStep> {
    let bytes = words.len() * WORD_SIZE as nat;
    seq![
        SearchStep::Create {
            buffer: ExactBuffer::NewResident,
            label,
            buffer_type: BufferType::Storage,
            bytes,
        },
        SearchStep::Upload { buffer: staging, words },
        SearchStep::Copy { source: staging, target: ExactBuffer::NewResident, bytes },
        SearchStep::Run,
    ]
}

/// Put words into a buffer that stays on the device.
fn upload_resident(label: &'static str, staging: ExactBuffer, words: &[u32]) -> (commands: Vec<
    ExactCommand,
>)
    requires
        words@.len() * WORD_SIZE <= usize::MAX,
    ensures
        steps(commands@) == resident_steps(label@, staging, words@),
{
    let bytes: usize = words.len() * WORD_SIZE;
    let mut commands: Vec<ExactCommand> = Vec::new();
    create(&mut commands, ExactBuffer::NewResident, label, BufferType::Storage, bytes);
    push_step(&mut commands, SearchCommand::Upload { buffer: staging, words: copied(words) });
    push_step(
        &mut commands,
        SearchCommand::Copy { source: staging, target: ExactBuffer::NewResident, bytes },
    );
    push_step(&mut commands, SearchCommand::Run);
    proof {
        assert(steps(commands@) =~= resident_steps(label@, staging, words@));
    }
    commands
}

/// Searching in tiles gives what scoring every candidate gives.
pub proof fn lemma_pipelines_agree(
    blocks: Vec<ScoredPointOffset>,
    scores: Vec<ScoreType>,
    candidates: Seq<PointOffsetType>,
    per_query: nat,
    top: nat,
    query: int,
)
    requires
        holds_tile_tops(
            blocks@.subrange(query * per_query, (query + 1) * per_query),
            scored_candidates(candidates, scores@),
        ),
        top <= BLOCK_TOPK_LIMIT,
    ensures
        query_result(ExactOutput::Blocks(blocks), candidates, per_query, top, query)
            == query_result(ExactOutput::Scores(scores), candidates, per_query, top, query),
{
    lemma_tiles_are_exact(
        blocks@.subrange(query * per_query, (query + 1) * per_query),
        scored_candidates(candidates, scores@),
        top,
    );
}

} // verus!
