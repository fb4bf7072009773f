//! Exact search for several queries with candidates of their own.

use vstd::prelude::*;

use crate::arith::{div_ceil_usize, lemma_ceil_div, max_int, max_usize, min_int};
use crate::buffer_telemetry::BufferType;
use crate::error::{failed, OperationError, OperationResult};
use crate::gpu::block_topk::{
    collect_top, holds_tile_tops, lemma_tiles_are_exact, present, tile_count, BLOCK_TOPK_LIMIT,
    BLOCK_TOPK_TILE_CANDIDATES,
};
use crate::gpu::commands::WORD_SIZE;
use crate::gpu::exact_context::{
    padded_queries, push_padded, since, timed, visibility_words, SCORED_POINT_SIZE,
};
use crate::gpu::search_commands::{
    push_step, steps, GpuVectorStorage, Kernel, SearchCommand, SearchStep,
};
use crate::gpu::visibility::WORD_BITS;
use crate::storage::VectorElementType;
use crate::text::{decimal, decimal_text, joined};
use crate::top_k::top_ranked;
use crate::types::{PointOffsetType, ScoredPointOffset};

verus! {

/// Number of words that describe a query.
pub const METADATA_WORDS: usize = 4;

/// The buffers take at most this many bytes.
pub const MAX_DEVICE_BUFFER_BYTES: usize = 67108864;

/// The buffers of a batch.
#[derive(Clone, Copy, Debug, PartialEq, Eq, Structural)]
pub enum BatchBuffer {
    Candidates,
    CandidateStaging,
    Query,
    QueryStaging,
    Metadata,
    MetadataStaging,
    Results,
    ResultStaging,
    /// No point is hidden.
    ZeroVisibility,
    /// A buffer that stays on the device.
    Resident { id: u64 },
}

/// Command of a batch.
pub type BatchCommand = SearchCommand<BatchBuffer>;

/// What a command of a batch says.
pub type BatchStep = SearchStep<BatchBuffer>;

/// A query with its candidates.
#[derive(Clone, Copy, Debug)]
pub struct HeterogeneousExactRequest<'a> {
    pub query: &'a [VectorElementType],
    pub candidates: &'a [PointOffsetType],
}

/// What a batch took.
#[derive(Clone, Copy, Debug, PartialEq, Eq, Structural)]
pub struct HeterogeneousExactTimings {
    pub total_candidates: usize,
    pub prepare_ns: u64,
    pub command_record_ns: u64,
    pub queue_submit_ns: u64,
    pub fence_wait_ns: u64,
    pub download_ns: u64,
    pub cpu_topk_ns: u64,
}

/// A single bounded context for batches whose queries use different payload predicates.
///
/// Candidates are packed for each submission, so the device needs no fixed room per predicate.
#[derive(Clone, Copy, Debug, PartialEq, Eq, Structural)]
pub struct GpuHeterogeneousExactBatchContext {
    pub storage: GpuVectorStorage,
    pub candidate_capacity: usize,
    pub batch_capacity: usize,
    pub queue_index: usize,
    pub resident_device_bytes: usize,
}

/// Bytes of the candidates.
pub open spec fn batch_candidate_bytes(candidate_capacity: nat, batch_capacity: nat) -> nat {
    candidate_capacity * batch_capacity * WORD_SIZE as nat
}

/// Bytes of the queries.
pub open spec fn batch_query_bytes(storage: GpuVectorStorage, batch_capacity: nat) -> nat {
    storage.vector_capacity as nat * batch_capacity * WORD_SIZE as nat
}

/// Bytes of the descriptions of the queries.
pub open spec fn batch_metadata_bytes(batch_capacity: nat) -> nat {
    batch_capacity * METADATA_WORDS as nat * WORD_SIZE as nat
}

/// Number of places for results.
pub open spec fn batch_places(candidate_capacity: nat, batch_capacity: nat) -> nat {
    tile_count(candidate_capacity) * BLOCK_TOPK_LIMIT as nat * batch_capacity
}

/// Bytes of the places for results.
pub open spec fn batch_result_bytes(candidate_capacity: nat, batch_capacity: nat) -> nat {
    batch_places(candidate_capacity, batch_capacity) * SCORED_POINT_SIZE as nat
}

/// Bytes of the visibility words.
pub open spec fn batch_visibility_bytes(storage: GpuVectorStorage) -> nat {
    visibility_words(storage.num_vectors as nat) * WORD_SIZE as nat
}

/// Bytes that the buffers take on the device, as far as they can be counted.
pub open spec fn batch_device_bytes(
    storage: GpuVectorStorage,
    candidate_capacity: nat,
    batch_capacity: nat,
) -> nat {
    min_int(
        (batch_candidate_bytes(candidate_capacity, batch_capacity) + batch_query_bytes(
            storage,
            batch_capacity,
        ) + batch_metadata_bytes(batch_capacity) + batch_result_bytes(
            candidate_capacity,
            batch_capacity,
        ) + batch_visibility_bytes(storage)) as int,
        usize::MAX as int,
    ) as nat
}

/// Text when the buffers would take too many bytes.
pub open spec fn memory_gate_text(bytes: nat) -> Seq<char> {
    "GPU heterogeneous exact batch would reserve "@ + decimal(bytes) + " bytes, above the "@
        + decimal(MAX_DEVICE_BUFFER_BYTES as nat) + "-byte memory gate"@
}

/// Why a context is refused.
pub open spec fn batch_setup_fault(
    storage: GpuVectorStorage,
    candidate_capacity: nat,
    batch_capacity: nat,
) -> Option<Seq<char>> {
    if candidate_capacity == 0 || batch_capacity < 2 {
        Some("GPU heterogeneous exact batch capacities are invalid"@)
    } else if candidate_capacity * batch_capacity > usize::MAX {
        Some("GPU candidate capacity overflow"@)
    } else if batch_candidate_bytes(candidate_capacity, batch_capacity) > usize::MAX {
        Some("GPU candidate byte size overflow"@)
    } else if batch_query_bytes(storage, batch_capacity) > usize::MAX {
        Some("GPU query byte size overflow"@)
    } else if batch_places(candidate_capacity, batch_capacity) > usize::MAX {
        Some("GPU result capacity overflow"@)
    } else if batch_result_bytes(candidate_capacity, batch_capacity) > usize::MAX {
        Some("GPU result byte size overflow"@)
    } else if batch_device_bytes(storage, candidate_capacity, batch_capacity)
        > MAX_DEVICE_BUFFER_BYTES {
        Some(memory_gate_text(batch_device_bytes(storage, candidate_capacity, batch_capacity)))
    } else {
        None
    }
}

/// Make a buffer.
pub open spec fn batch_buffer(
    buffer: BatchBuffer,
    label: Seq<char>,
    buffer_type: BufferType,
    bytes: nat,
) -> BatchStep {
    SearchStep::Create { buffer, label, buffer_type, bytes }
}

/// The buffers of a context. No point is hidden at first.
pub open spec fn batch_buffers(
    storage: GpuVectorStorage,
    candidate_capacity: nat,
    batch_capacity: nat,
) -> Seq<BatchStep> {
    let candidates = batch_candidate_bytes(candidate_capacity, batch_capacity);
    let queries = batch_query_bytes(storage, batch_capacity);
    let metadata = batch_metadata_bytes(batch_capacity);
    let results = batch_result_bytes(candidate_capacity, batch_capacity);
    seq![
        batch_buffer(
            BatchBuffer::Candidates,
            "Heterogeneous exact candidate IDs"@,
            BufferType::Storage,
            candidates,
        ),
        batch_buffer(
            BatchBuffer::CandidateStaging,
            "Heterogeneous exact candidate upload"@,
            BufferType::CpuToGpu,
            candidates,
        ),
        batch_buffer(
            BatchBuffer::Query,
            "Heterogeneous exact queries"@,
            BufferType::Storage,
            queries,
        ),
        batch_buffer(
            BatchBuffer::QueryStaging,
            "Heterogeneous exact query upload"@,
            BufferType::CpuToGpu,
            queries,
        ),
        batch_buffer(
            BatchBuffer::Metadata,
            "Heterogeneous exact metadata"@,
            BufferType::Storage,
            metadata,
        ),
        batch_buffer(
            BatchBuffer::MetadataStaging,
            "Heterogeneous exact metadata upload"@,
            BufferType::CpuToGpu,
            metadata,
        ),
        batch_buffer(
            BatchBuffer::Results,
            "Heterogeneous exact block results"@,
            BufferType::Storage,
            results,
        ),
        batch_buffer(
            BatchBuffer::ResultStaging,
            "Heterogeneous exact result download"@,
            BufferType::GpuToCpu,
            results,
        ),
        batch_buffer(
            BatchBuffer::ZeroVisibility,
            "Heterogeneous exact zero visibility"@,
            BufferType::Storage,
            batch_visibility_bytes(storage),
        ),
        SearchStep::Clear { buffer: BatchBuffer::ZeroVisibility },
        SearchStep::Run,
    ]
}

/// Make a buffer.
fn create(
    commands: &mut Vec<BatchCommand>,
    buffer: BatchBuffer,
    label: &'static str,
    buffer_type: BufferType,
    bytes: usize,
)
    ensures
        steps(final(commands)@) == steps(old(commands)@).push(
            batch_buffer(buffer, label@, buffer_type, bytes as nat),
        ),
{
    push_step(commands, SearchCommand::Create { buffer, label, buffer_type, bytes });
}

/// Sum clamped to the largest size.
fn saturating_add(a: usize, b: usize) -> (r: usize)
    ensures
        r == min_int(a + b, usize::MAX as int),
{
    match a.checked_add(b) {
        Some(sum) => sum,
        None => usize::MAX,
    }
}

impl GpuHeterogeneousExactBatchContext {
    /// The buffers are within the limit, and a query fits.
    pub open spec fn wf(&self) -> bool {
        &&& self.storage.dim <= self.storage.vector_capacity
        &&& batch_setup_fault(
            self.storage,
            self.candidate_capacity as nat,
            self.batch_capacity as nat,
        ) is None
        &&& self.resident_device_bytes == batch_device_bytes(
            self.storage,
            self.candidate_capacity as nat,
            self.batch_capacity as nat,
        )
    }

    /// Make the buffers of a context.
    pub fn new(
        storage: GpuVectorStorage,
        candidate_capacity: usize,
        batch_capacity: usize,
        queue_index: usize,
    ) -> (r: OperationResult<(Self, Vec<BatchCommand>)>)
        requires
            storage.dim <= storage.vector_capacity,
            candidate_capacity > 0 && batch_candidate_bytes(
                candidate_capacity as nat,
                batch_capacity as nat,
            ) <= usize::MAX && batch_query_bytes(storage, batch_capacity as nat) <= usize::MAX
                ==> batch_metadata_bytes(batch_capacity as nat) <= usize::MAX,
        ensures
            match batch_setup_fault(
                storage,
                candidate_capacity as nat,
                batch_capacity as nat,
            ) {
                Some(text) => failed(r, text),
                None => r is Ok,
            },
            r matches Ok((context, commands)) ==> {
                &&& context.wf()
                &&& context.storage == storage
                &&& context.candidate_capacity == candidate_capacity
                &&& context.batch_capacity == batch_capacity
                &&& context.queue_index == queue_index
                &&& steps(commands@) == batch_buffers(
                    storage,
                    candidate_capacity as nat,
                    batch_capacity as nat,
                )
            },
    {
        if candidate_capacity == 0 || batch_capacity < 2 {
            return Err(
                OperationError::service_error(
                    "GPU heterogeneous exact batch capacities are invalid",
                ),
            );
        }
        let packed_candidate_capacity: usize = match candidate_capacity.checked_mul(
            batch_capacity,
        ) {
            Some(packed) => packed,
            None => {
                return Err(OperationError::service_error("GPU candidate capacity overflow"));
            },
        };
        let candidate_bytes: usize = match packed_candidate_capacity.checked_mul(WORD_SIZE) {
            Some(bytes) => bytes,
            None => {
                return Err(OperationError::service_error("GPU candidate byte size overflow"));
            },
        };
        proof {
            let q = storage.vector_capacity as int * batch_capacity as int;
            assert(q <= q * WORD_SIZE) by (nonlinear_arith)
                requires
                    q >= 0,
            ;
        }
        let padded_elements: usize = match storage.vector_capacity.checked_mul(batch_capacity) {
            Some(elements) => elements,
            None => {
                return Err(OperationError::service_error("GPU query byte size overflow"));
            },
        };
        let query_bytes: usize = match padded_elements.checked_mul(WORD_SIZE) {
            Some(bytes) => bytes,
            None => {
                return Err(OperationError::service_error("GPU query byte size overflow"));
            },
        };
        let metadata_bytes: usize = batch_capacity * METADATA_WORDS * WORD_SIZE;
        proof {
            lemma_ceil_div(candidate_capacity as int, BLOCK_TOPK_TILE_CANDIDATES as int);
            lemma_ceil_div(storage.num_vectors as int, WORD_BITS as int);
            let t = tile_count(candidate_capacity as nat) as int * BLOCK_TOPK_LIMIT as int;
            assert(t <= t * batch_capacity) by (nonlinear_arith)
                requires
                    t >= 0,
                    batch_capacity >= 1,
            ;
        }
        let tiles: usize = div_ceil_usize(candidate_capacity, BLOCK_TOPK_TILE_CANDIDATES);
        let places: usize = match tiles.checked_mul(BLOCK_TOPK_LIMIT) {
            Some(places) => places,
            None => {
                return Err(OperationError::service_error("GPU result capacity overflow"));
            },
        };
        let result_capacity: usize = match places.checked_mul(batch_capacity) {
            Some(capacity) => capacity,
            None => {
                return Err(OperationError::service_error("GPU result capacity overflow"));
            },
        };
        let result_bytes: usize = match result_capacity.checked_mul(SCORED_POINT_SIZE) {
            Some(bytes) => bytes,
            None => {
                return Err(OperationError::service_error("GPU result byte size overflow"));
            },
        };
        let visibility_bytes: usize = max_usize(div_ceil_usize(storage.num_vectors, WORD_BITS), 1)
            * WORD_SIZE;
        let resident_device_bytes: usize = saturating_add(
            saturating_add(
                saturating_add(saturating_add(candidate_bytes, query_bytes), metadata_bytes),
                result_bytes,
            ),
            visibility_bytes,
        );
        if resident_device_bytes > MAX_DEVICE_BUFFER_BYTES {
            let bytes_text = decimal_text(resident_device_bytes as u64);
            let limit_text = decimal_text(MAX_DEVICE_BUFFER_BYTES as u64);
            let text = joined(
                joined(
                    joined(
                        joined(
                            "GPU heterogeneous exact batch would reserve ".to_owned(),
                            bytes_text.as_str(),
                        ),
                        " bytes, above the ",
                    ),
                    limit_text.as_str(),
                ),
                "-byte memory gate",
            );
            return Err(OperationError::service_error_owned(text));
        }
        let mut commands: Vec<BatchCommand> = Vec::new();
        create(
            &mut commands,
            BatchBuffer::Candidates,
            "Heterogeneous exact candidate IDs",
            BufferType::Storage,
            candidate_bytes,
        );
        create(
            &mut commands,
            BatchBuffer::CandidateStaging,
            "Heterogeneous exact candidate upload",
            BufferType::CpuToGpu,
            candidate_bytes,
        );
        create(
            &mut commands,
            BatchBuffer::Query,
            "Heterogeneous exact queries",
            BufferType::Storage,
            query_bytes,
        );
        create(
            &mut commands,
            BatchBuffer::QueryStaging,
            "Heterogeneous exact query upload",
            BufferType::CpuToGpu,
            query_bytes,
        );
        create(
            &mut commands,
            BatchBuffer::Metadata,
            "Heterogeneous exact metadata",
            BufferType::Storage,
            metadata_bytes,
        );
        create(
            &mut commands,
            BatchBuffer::MetadataStaging,
            "Heterogeneous exact metadata upload",
            BufferType::CpuToGpu,
            metadata_bytes,
        );
        create(
            &mut commands,
            BatchBuffer::Results,
            "Heterogeneous exact block results",
            BufferType::Storage,
            result_bytes,
        );
        create(
            &mut commands,
            BatchBuffer::ResultStaging,
            "Heterogeneous exact result download",
            BufferType::GpuToCpu,
            result_bytes,
        );
        create(
            &mut commands,
            BatchBuffer::ZeroVisibility,
            "Heterogeneous exact zero visibility",
            BufferType::Storage,
            visibility_bytes,
        );
        push_step(&mut commands, SearchCommand::Clear { buffer: BatchBuffer::ZeroVisibility });
        push_step(&mut commands, SearchCommand::Run);
        proof {
            assert(steps(commands@) =~= batch_buffers(
                storage,
                candidate_capacity as nat,
                batch_capacity as nat,
            ));
        }
        let context = GpuHeterogeneousExactBatchContext {
            storage,
            candidate_capacity,
            batch_capacity,
            queue_index,
            resident_device_bytes,
        };
        Ok((context, commands))
    }

    /// Bytes that the buffers take on the device.
    pub fn resident_device_bytes(&self) -> (bytes: usize)
        ensures
            bytes == self.resident_device_bytes,
    {
        self.resident_device_bytes
    }
}

/// The elements of every query.
pub open spec fn request_queries(
    requests: Seq<HeterogeneousExactRequest>,
) -> Seq<Seq<VectorElementType>> {
    requests.map_values(|request: HeterogeneousExactRequest| request.query@)
}

/// The candidates of every query.
pub open spec fn request_candidates(
    requests: Seq<HeterogeneousExactRequest>,
) -> Seq<Seq<PointOffsetType>> {
    requests.map_values(|request: HeterogeneousExactRequest| request.candidates@)
}

/// All candidates, one query after the other.
pub open spec fn packed_candidates(lists: Seq<Seq<PointOffsetType>>) -> Seq<PointOffsetType>
    decreases lists.len(),
{
    if lists.len() == 0 {
        Seq::empty()
    } else {
        packed_candidates(lists.drop_last()) + lists.last()
    }
}

/// Where the places of the query behind these start.
pub open spec fn output_offset(lists: Seq<Seq<PointOffsetType>>) -> nat
    decreases lists.len(),
{
    if lists.len() == 0 {
        0
    } else {
        output_offset(lists.drop_last()) + tile_count(lists.last().len())
            * BLOCK_TOPK_LIMIT as nat
    }
}

/// What the shader is told of every query: where its candidates start and how many there are, and
/// where its places start.
pub open spec fn request_metadata(lists: Seq<Seq<PointOffsetType>>) -> Seq<u32>
    decreases lists.len(),
{
    if lists.len() == 0 {
        Seq::empty()
    } else {
        let previous = lists.drop_last();
        request_metadata(previous) + seq![
            packed_candidates(previous).len() as u32,
            lists.last().len() as u32,
            output_offset(previous) as u32,
            0u32,
        ]
    }
}

/// The largest number of tiles of a query.
pub open spec fn max_tiles(lists: Seq<Seq<PointOffsetType>>) -> nat
    decreases lists.len(),
{
    if lists.len() == 0 {
        0
    } else {
        max_int(
            max_tiles(lists.drop_last()) as int,
            tile_count(lists.last().len()) as int,
        ) as nat
    }
}

/// Why a batch is refused.
pub open spec fn batch_search_fault(
    context: GpuHeterogeneousExactBatchContext,
    queries: Seq<Seq<VectorElementType>>,
    lists: Seq<Seq<PointOffsetType>>,
    top: nat,
) -> Option<Seq<char>> {
    if lists.len() == 0 || lists.len() > context.batch_capacity {
        Some("GPU heterogeneous exact query batch capacity exceeded"@)
    } else if top == 0 || top > BLOCK_TOPK_LIMIT {
        Some("GPU heterogeneous exact top-k is unsupported"@)
    } else if exists|i: int|
        0 <= i < lists.len() && !#[trigger] is_valid_request(context, queries, lists, i) {
        Some("GPU heterogeneous exact request is invalid"@)
    } else {
        None
    }
}

/// The query has the right number of elements, and it has candidates but not too many.
pub open spec fn is_valid_request(
    context: GpuHeterogeneousExactBatchContext,
    queries: Seq<Seq<VectorElementType>>,
    lists: Seq<Seq<PointOffsetType>>,
    i: int,
) -> bool {
    &&& queries[i].len() == context.storage.dim
    &&& 0 < lists[i].len() <= context.candidate_capacity
}

/// The commands of a batch.
pub open spec fn batch_search_steps(
    context: GpuHeterogeneousExactBatchContext,
    queries: Seq<Seq<VectorElementType>>,
    lists: Seq<Seq<PointOffsetType>>,
    visibility: Option<u64>,
) -> Seq<BatchStep> {
    let candidates = packed_candidates(lists);
    let words = padded_queries(queries, context.storage.vector_capacity as nat);
    let metadata = request_metadata(lists);
    seq![
        SearchStep::Upload { buffer: BatchBuffer::CandidateStaging, words: candidates },
        SearchStep::Upload { buffer: BatchBuffer::QueryStaging, words },
        SearchStep::Upload { buffer: BatchBuffer::MetadataStaging, words: metadata },
        SearchStep::Copy {
            source: BatchBuffer::CandidateStaging,
            target: BatchBuffer::Candidates,
            bytes: candidates.len() * WORD_SIZE as nat,
        },
        SearchStep::Copy {
            source: BatchBuffer::QueryStaging,
            target: BatchBuffer::Query,
            bytes: words.len() * WORD_SIZE as nat,
        },
        SearchStep::Copy {
            source: BatchBuffer::MetadataStaging,
            target: BatchBuffer::Metadata,
            bytes: metadata.len() * WORD_SIZE as nat,
        },
        SearchStep::Barrier {
            buffers: seq![BatchBuffer::Candidates, BatchBuffer::Query, BatchBuffer::Metadata],
        },
        SearchStep::Bind {
            kernel: Kernel::HeterogeneousBlockTopk,
            storage: seq![
                BatchBuffer::Candidates,
                BatchBuffer::Query,
                BatchBuffer::Results,
                BatchBuffer::Metadata,
                match visibility {
                    Some(id) => BatchBuffer::Resident { id },
                    None => BatchBuffer::ZeroVisibility,
                },
            ],
        },
        SearchStep::Dispatch { x: max_tiles(lists), y: lists.len() },
        SearchStep::Barrier { buffers: seq![BatchBuffer::Results] },
        SearchStep::Copy {
            source: BatchBuffer::Results,
            target: BatchBuffer::ResultStaging,
            bytes: output_offset(lists) * SCORED_POINT_SIZE as nat,
        },
        SearchStep::Run,
    ]
}

/// Commands of a batch and where the places of its queries start.
#[derive(Debug)]
pub struct BatchSubmission {
    pub commands: Vec<BatchCommand>,
    /// Where the places of every query start, and where the last ones end.
    pub output_offsets: Vec<usize>,
    pub total_candidates: usize,
}

/// The submission does what the queries need.
pub open spec fn is_batch_submission(
    submission: BatchSubmission,
    context: GpuHeterogeneousExactBatchContext,
    queries: Seq<Seq<VectorElementType>>,
    lists: Seq<Seq<PointOffsetType>>,
    visibility: Option<u64>,
) -> bool {
    &&& steps(submission.commands@) == batch_search_steps(context, queries, lists, visibility)
    &&& submission.output_offsets@.len() == lists.len() + 1
    &&& forall|i: int|
        0 <= i <= lists.len() ==> (#[trigger] submission.output_offsets@[i]) == output_offset(
            lists.take(i),
        )
    &&& submission.total_candidates == packed_candidates(lists).len()
}

/// Places of fewer queries end before those of more.
pub(crate) proof fn lemma_output_offsets(lists: Seq<Seq<PointOffsetType>>, i: int, j: int)
    requires
        0 <= i <= j <= lists.len(),
    ensures
        output_offset(lists.take(i)) <= output_offset(lists.take(j)),
    decreases j - i,
{
    if i < j {
        lemma_output_offsets(lists, i, j - 1);
        assert(lists.take(j).drop_last() =~= lists.take(j - 1));
    }
}

/// Sizes of a batch whose queries are valid stay within those of the buffers.
pub(crate) proof fn lemma_batch_sizes(
    context: GpuHeterogeneousExactBatchContext,
    lists: Seq<Seq<PointOffsetType>>,
)
    requires
        context.wf(),
        lists.len() <= context.batch_capacity,
        forall|i: int|
            0 <= i < lists.len() ==> (#[trigger] lists[i]).len() <= context.candidate_capacity,
    ensures
        packed_candidates(lists).len() <= lists.len() * context.candidate_capacity,
        output_offset(lists) <= lists.len() * tile_count(context.candidate_capacity as nat)
            * BLOCK_TOPK_LIMIT,
        packed_candidates(lists).len() * WORD_SIZE <= MAX_DEVICE_BUFFER_BYTES,
        output_offset(lists) * SCORED_POINT_SIZE <= MAX_DEVICE_BUFFER_BYTES,
    decreases lists.len(),
{
    let capacity = context.candidate_capacity as int;
    let tiles = tile_count(context.candidate_capacity as nat) as int;
    let batch = context.batch_capacity as int;
    let n = lists.len() as int;
    lemma_ceil_div(capacity, BLOCK_TOPK_TILE_CANDIDATES as int);
    if n > 0 {
        let previous = lists.drop_last();
        assert forall|i: int| 0 <= i < previous.len() implies (#[trigger] previous[i]).len()
            <= context.candidate_capacity by {
            assert(previous[i] == lists[i]);
        }
        lemma_batch_sizes(context, previous);
        let len = lists.last().len() as int;
        assert(lists[n - 1] == lists.last());
        lemma_ceil_div(len, BLOCK_TOPK_TILE_CANDIDATES as int);
        assert(tile_count(len as nat) <= tiles) by {
            lemma_tiles_grow(len, capacity);
        }
        let own = tile_count(len as nat) as int;
        assert(n * capacity == (n - 1) * capacity + capacity) by (nonlinear_arith);
        assert(own * BLOCK_TOPK_LIMIT + (n - 1) * tiles * BLOCK_TOPK_LIMIT <= n * tiles
            * BLOCK_TOPK_LIMIT) by (nonlinear_arith)
            requires
                own <= tiles,
        ;
    } else {
        assert(0 * capacity == 0 && 0 * tiles * BLOCK_TOPK_LIMIT == 0) by (nonlinear_arith);
    }
    assert(n * capacity * WORD_SIZE <= capacity * batch * WORD_SIZE) by (nonlinear_arith)
        requires
            0 <= n <= batch,
            0 <= capacity,
    ;
    assert(n * tiles * BLOCK_TOPK_LIMIT * SCORED_POINT_SIZE <= tiles * BLOCK_TOPK_LIMIT * batch
        * SCORED_POINT_SIZE) by (nonlinear_arith)
        requires
            0 <= n <= batch,
            0 <= tiles,
    ;
    lemma_parts_of_device_bytes(context);
}

/// More candidates do not need fewer tiles.
proof fn lemma_tiles_grow(a: int, b: int)
    requires
        0 <= a <= b,
    ensures
        tile_count(a as nat) <= tile_count(b as nat),
{
    lemma_ceil_div(a, BLOCK_TOPK_TILE_CANDIDATES as int);
    lemma_ceil_div(b, BLOCK_TOPK_TILE_CANDIDATES as int);
}

/// Every buffer is within the limit.
proof fn lemma_parts_of_device_bytes(context: GpuHeterogeneousExactBatchContext)
    requires
        context.wf(),
    ensures
        batch_candidate_bytes(
            context.candidate_capacity as nat,
            context.batch_capacity as nat,
        ) <= MAX_DEVICE_BUFFER_BYTES,
        batch_query_bytes(context.storage, context.batch_capacity as nat)
            <= MAX_DEVICE_BUFFER_BYTES,
        batch_metadata_bytes(context.batch_capacity as nat) <= MAX_DEVICE_BUFFER_BYTES,
        batch_result_bytes(context.candidate_capacity as nat, context.batch_capacity as nat)
            <= MAX_DEVICE_BUFFER_BYTES,
{
}

/// The reply has as many places as were asked for.
pub open spec fn can_run_batch<
    R: Fn(&BatchSubmission, usize) -> OperationResult<BatchReply>,
>(run: &R) -> bool {
    &&& forall|submission: &BatchSubmission, count: usize| #[trigger]
        run.requires((submission, count))
    &&& forall|submission: &BatchSubmission, count: usize, reply: BatchReply| #[trigger]
        run.ensures((submission, count), Ok(reply)) ==> reply.points@.len() == count
}

/// What comes back from a batch, with the times that its parts took.
#[derive(Debug)]
pub struct BatchReply {
    pub points: Vec<ScoredPointOffset>,
    pub command_record_ns: u64,
    pub queue_submit_ns: u64,
    pub fence_wait_ns: u64,
    pub download_ns: u64,
}

/// A batch was answered like this.
pub open spec fn batch_ran<R: Fn(&BatchSubmission, usize) -> OperationResult<BatchReply>>(
    run: &R,
    context: GpuHeterogeneousExactBatchContext,
    queries: Seq<Seq<VectorElementType>>,
    lists: Seq<Seq<PointOffsetType>>,
    visibility: Option<u64>,
    reply: OperationResult<BatchReply>,
) -> bool {
    exists|submission: &BatchSubmission, count: usize|
        {
            &&& #[trigger] run.ensures((submission, count), reply)
            &&& count == output_offset(lists)
            &&& is_batch_submission(*submission, context, queries, lists, visibility)
        }
}

/// The best points of one query.
pub open spec fn request_result(
    points: Seq<ScoredPointOffset>,
    lists: Seq<Seq<PointOffsetType>>,
    top: nat,
    i: int,
) -> Seq<ScoredPointOffset> {
    top_ranked(
        present(
            points.subrange(
                output_offset(lists.take(i)) as int,
                output_offset(lists.take(i + 1)) as int,
            ),
        ),
        top,
    )
}

impl GpuHeterogeneousExactBatchContext {
    /// Check a batch and put its commands together.
    pub fn plan_search(
        &self,
        requests: &[HeterogeneousExactRequest],
        top: usize,
        visibility: Option<u64>,
    ) -> (r: OperationResult<BatchSubmission>)
        requires
            self.wf(),
        ensures
            match batch_search_fault(
                *self,
                request_queries(requests@),
                request_candidates(requests@),
                top as nat,
            ) {
                Some(text) => failed(r, text),
                None => r is Ok,
            },
            r matches Ok(submission) ==> is_batch_submission(
                submission,
                *self,
                request_queries(requests@),
                request_candidates(requests@),
                visibility,
            ),
    {
        let ghost elements = request_queries(requests@);
        let ghost lists = request_candidates(requests@);
        if requests.len() == 0 || requests.len() > self.batch_capacity {
            return Err(
                OperationError::service_error(
                    "GPU heterogeneous exact query batch capacity exceeded",
                ),
            );
        }
        if top == 0 || top > BLOCK_TOPK_LIMIT {
            return Err(
                OperationError::service_error("GPU heterogeneous exact top-k is unsupported"),
            );
        }
        let mut i: usize = 0;
        while i < requests.len()
            invariant
                i <= requests@.len() <= self.batch_capacity,
                requests@.len() > 0,
                0 < top <= BLOCK_TOPK_LIMIT,
                elements == request_queries(requests@),
                lists == request_candidates(requests@),
                forall|j: int|
                    0 <= j < i ==> #[trigger] is_valid_request(*self, elements, lists, j),
            decreases requests@.len() - i,
        {
            let request = requests[i];
            proof {
                assert(elements[i as int] == request.query@);
                assert(lists[i as int] == request.candidates@);
            }
            if request.query.len() != self.storage.dim || request.candidates.len() == 0
                || request.candidates.len() > self.candidate_capacity {
                proof {
                    assert(!is_valid_request(*self, elements, lists, i as int));
                }
                return Err(
                    OperationError::service_error("GPU heterogeneous exact request is invalid"),
                );
            }
            i = i + 1;
        }
        proof {
            assert forall|j: int| 0 <= j < lists.len() implies (#[trigger] lists[j]).len()
                <= self.candidate_capacity by {
                assert(is_valid_request(*self, elements, lists, j));
            }
            lemma_batch_sizes(*self, lists);
            lemma_parts_of_device_bytes(*self);
        }
        let capacity: usize = self.storage.vector_capacity;
        let mut candidates: Vec<PointOffsetType> = Vec::new();
        let mut words: Vec<VectorElementType> = Vec::new();
        let mut metadata: Vec<u32> = Vec::new();
        let mut output_offsets: Vec<usize> = Vec::new();
        output_offsets.push(0);
        let mut output: usize = 0;
        let mut max_block_count: usize = 0;
        let mut k: usize = 0;
        proof {
            assert(padded_queries(elements.take(0), capacity as nat) =~= Seq::empty());
            assert(packed_candidates(lists.take(0)) =~= Seq::empty());
            assert(request_metadata(lists.take(0)) =~= Seq::empty());
            assert(0 * capacity == 0) by (nonlinear_arith);
        }
        while k < requests.len()
            invariant
                self.wf(),
                k <= requests@.len() <= self.batch_capacity,
                capacity == self.storage.vector_capacity,
                elements == request_queries(requests@),
                lists == request_candidates(requests@),
                forall|j: int|
                    0 <= j < lists.len() ==> #[trigger] is_valid_request(
                        *self,
                        elements,
                        lists,
                        j,
                    ),
                forall|j: int|
                    0 <= j < lists.len() ==> (#[trigger] lists[j]).len()
                        <= self.candidate_capacity,
                candidates@ == packed_candidates(lists.take(k as int)),
                words@ == padded_queries(elements.take(k as int), capacity as nat),
                words@.len() == k * capacity,
                metadata@ == request_metadata(lists.take(k as int)),
                metadata@.len() == k * METADATA_WORDS,
                output == output_offset(lists.take(k as int)),
                max_block_count == max_tiles(lists.take(k as int)),
                output_offsets@.len() == k + 1,
                forall|j: int|
                    0 <= j <= k ==> (#[trigger] output_offsets@[j]) == output_offset(
                        lists.take(j),
                    ),
            decreases requests@.len() - k,
        {
            let request = requests[k];
            let ghost before = candidates@;
            proof {
                assert(is_valid_request(*self, elements, lists, k as int));
                assert(elements[k as int] == request.query@);
                assert(lists[k as int] == request.candidates@);
                assert(lists.take(k + 1).drop_last() =~= lists.take(k as int));
                assert(lists.take(k + 1).last() == request.candidates@);
                assert(elements.take(k + 1).drop_last() =~= elements.take(k as int));
                assert(elements.take(k + 1).last() == request.query@);
                assert forall|j: int| 0 <= j < lists.take(k + 1).len() implies (
                #[trigger] lists.take(k + 1)[j]).len() <= self.candidate_capacity by {
                    assert(lists[j] == lists.take(k + 1)[j]);
                }
                lemma_batch_sizes(*self, lists.take(k + 1));
                assert((k + 1) * capacity == k * capacity + capacity) by (nonlinear_arith);
                lemma_ceil_div(
                    request.candidates@.len() as int,
                    BLOCK_TOPK_TILE_CANDIDATES as int,
                );
            }
            let candidate_offset: usize = candidates.len();
            push_words(&mut candidates, request.candidates);
            push_padded(&mut words, request.query, capacity);
            let block_count: usize = div_ceil_usize(
                request.candidates.len(),
                BLOCK_TOPK_TILE_CANDIDATES,
            );
            max_block_count = max_usize(max_block_count, block_count);
            let ghost described = metadata@;
            metadata.push(candidate_offset as u32);
            metadata.push(request.candidates.len() as u32);
            metadata.push(output as u32);
            metadata.push(0);
            proof {
                assert(metadata@ =~= described + seq![
                    candidate_offset as u32,
                    request.candidates@.len() as u32,
                    output as u32,
                    0u32,
                ]);
                assert(metadata@ == request_metadata(lists.take(k + 1)));
            }
            output = output + block_count * BLOCK_TOPK_LIMIT;
            output_offsets.push(output);
            k = k + 1;
        }
        proof {
            assert(lists.take(k as int) =~= lists);
            assert(elements.take(k as int) =~= elements);
            assert(k * capacity * WORD_SIZE <= capacity * self.batch_capacity * WORD_SIZE)
                by (nonlinear_arith)
                requires
                    k <= self.batch_capacity,
            ;
        }
        let total_candidates: usize = candidates.len();
        let candidate_bytes: usize = total_candidates * WORD_SIZE;
        let query_bytes: usize = words.len() * WORD_SIZE;
        let metadata_bytes: usize = metadata.len() * WORD_SIZE;
        let visibility_buffer: BatchBuffer = match visibility {
            Some(id) => BatchBuffer::Resident { id },
            None => BatchBuffer::ZeroVisibility,
        };
        let mut commands: Vec<BatchCommand> = Vec::new();
        push_step(
            &mut commands,
            SearchCommand::Upload { buffer: BatchBuffer::CandidateStaging, words: candidates },
        );
        push_step(
            &mut commands,
            SearchCommand::Upload { buffer: BatchBuffer::QueryStaging, words },
        );
        push_step(
            &mut commands,
            SearchCommand::Upload { buffer: BatchBuffer::MetadataStaging, words: metadata },
        );
        push_step(
            &mut commands,
            SearchCommand::Copy {
                source: BatchBuffer::CandidateStaging,
                target: BatchBuffer::Candidates,
                bytes: candidate_bytes,
            },
        );
        push_step(
            &mut commands,
            SearchCommand::Copy {
                source: BatchBuffer::QueryStaging,
                target: BatchBuffer::Query,
                bytes: query_bytes,
            },
        );
        push_step(
            &mut commands,
            SearchCommand::Copy {
                source: BatchBuffer::MetadataStaging,
                target: BatchBuffer::Metadata,
                bytes: metadata_bytes,
            },
        );
        let mut uploaded: Vec<BatchBuffer> = Vec::new();
        uploaded.push(BatchBuffer::Candidates);
        uploaded.push(BatchBuffer::Query);
        uploaded.push(BatchBuffer::Metadata);
        push_step(&mut commands, SearchCommand::Barrier { buffers: uploaded });
        let mut bound: Vec<BatchBuffer> = Vec::new();
        bound.push(BatchBuffer::Candidates);
        bound.push(BatchBuffer::Query);
        bound.push(BatchBuffer::Results);
        bound.push(BatchBuffer::Metadata);
        bound.push(visibility_buffer);
        push_step(
            &mut commands,
            SearchCommand::Bind { kernel: Kernel::HeterogeneousBlockTopk, storage: bound },
        );
        push_step(
            &mut commands,
            SearchCommand::Dispatch { x: max_block_count, y: requests.len() },
        );
        let mut written: Vec<BatchBuffer> = Vec::new();
        written.push(BatchBuffer::Results);
        push_step(&mut commands, SearchCommand::Barrier { buffers: written });
        push_step(
            &mut commands,
            SearchCommand::Copy {
                source: BatchBuffer::Results,
                target: BatchBuffer::ResultStaging,
                bytes: output * SCORED_POINT_SIZE,
            },
        );
        push_step(&mut commands, SearchCommand::Run);
        proof {
            assert(uploaded@ =~= seq![
                BatchBuffer::Candidates,
                BatchBuffer::Query,
                BatchBuffer::Metadata,
            ]);
            assert(bound@ =~= seq![
                BatchBuffer::Candidates,
                BatchBuffer::Query,
                BatchBuffer::Results,
                BatchBuffer::Metadata,
                match visibility {
                    Some(id) => BatchBuffer::Resident { id },
                    None => BatchBuffer::ZeroVisibility,
                },
            ]);
            assert(written@ =~= seq![BatchBuffer::Results]);
            assert(steps(commands@) =~= batch_search_steps(*self, elements, lists, visibility));
        }
        Ok(BatchSubmission { commands, output_offsets, total_candidates })
    }

    /// Search the candidates of every query exactly. `run` performs a submission and reads scored
    /// points back, and `clock` tells the time in nanoseconds.
    pub fn search<R: Fn(&BatchSubmission, usize) -> OperationResult<BatchReply>, C: Fn() -> u64>(
        &self,
        requests: &[HeterogeneousExactRequest],
        top: usize,
        visibility: Option<u64>,
        run: &R,
        clock: &C,
    ) -> (r: OperationResult<(Vec<Vec<ScoredPointOffset>>, HeterogeneousExactTimings)>)
        requires
            self.wf(),
            can_run_batch(run),
            clock.requires(()),
        ensures
            batch_searched(
                *self,
                request_queries(requests@),
                request_candidates(requests@),
                top as nat,
                visibility,
                run,
                clock,
                r,
            ),
    {
        let ghost elements = request_queries(requests@);
        let ghost lists = request_candidates(requests@);
        let started: u64 = clock();
        let submission = match self.plan_search(requests, top, visibility) {
            Ok(submission) => submission,
            Err(error) => {
                return Err(error);
            },
        };
        let prepare_ns: u64 = since(clock, started);
        let last: usize = submission.output_offsets.len() - 1;
        let count: usize = submission.output_offsets[last];
        proof {
            assert(lists.take(lists.len() as int) =~= lists);
        }
        let outcome = run(&submission, count);
        proof {
            assert(run.ensures((&submission, count), outcome));
            assert(batch_ran(run, *self, elements, lists, visibility, outcome));
        }
        let reply = match outcome {
            Ok(reply) => reply,
            Err(error) => {
                let r = Err(error);
                proof {
                    assert(batch_result(clock, outcome, lists, top as nat, r));
                }
                return r;
            },
        };
        let topk_started: u64 = clock();
        let mut results: Vec<Vec<ScoredPointOffset>> = Vec::new();
        let mut i: usize = 0;
        while i < last
            invariant
                i <= last == lists.len(),
                clock.requires(()),
                clock.ensures((), topk_started),
                timed(clock, prepare_ns),
                is_batch_submission(submission, *self, elements, lists, visibility),
                reply.points@.len() == output_offset(lists),
                results@.len() == i,
                forall|j: int|
                    0 <= j < i ==> (#[trigger] results@[j])@ == request_result(
                        reply.points@,
                        lists,
                        top as nat,
                        j,
                    ),
            decreases last - i,
        {
            proof {
                lemma_output_offsets(lists, i as int, i + 1);
                lemma_output_offsets(lists, i + 1, lists.len() as int);
                assert(lists.take(lists.len() as int) =~= lists);
                assert(submission.output_offsets@[i as int] == output_offset(
                    lists.take(i as int),
                ));
                assert(submission.output_offsets@[i + 1] == output_offset(lists.take(i + 1)));
            }
            let from: usize = submission.output_offsets[i];
            let to: usize = submission.output_offsets[i + 1];
            results.push(collect_top(&reply.points, from, to, top));
            i = i + 1;
        }
        let cpu_topk_ns: u64 = since(clock, topk_started);
        let timings = HeterogeneousExactTimings {
            total_candidates: submission.total_candidates,
            prepare_ns,
            command_record_ns: reply.command_record_ns,
            queue_submit_ns: reply.queue_submit_ns,
            fence_wait_ns: reply.fence_wait_ns,
            download_ns: reply.download_ns,
            cpu_topk_ns,
        };
        let r = Ok((results, timings));
        proof {
            assert(batch_result(clock, outcome, lists, top as nat, r));
        }
        r
    }
}

/// What the search for a batch gives.
pub open spec fn batch_searched<
    R: Fn(&BatchSubmission, usize) -> OperationResult<BatchReply>,
    C: Fn() -> u64,
>(
    context: GpuHeterogeneousExactBatchContext,
    queries: Seq<Seq<VectorElementType>>,
    lists: Seq<Seq<PointOffsetType>>,
    top: nat,
    visibility: Option<u64>,
    run: &R,
    clock: &C,
    r: OperationResult<(Vec<Vec<ScoredPointOffset>>, HeterogeneousExactTimings)>,
) -> bool {
    match batch_search_fault(context, queries, lists, top) {
        Some(text) => failed(r, text),
        None => exists|reply: OperationResult<BatchReply>|
            {
                &&& #[trigger] batch_ran(run, context, queries, lists, visibility, reply)
                &&& batch_result(clock, reply, lists, top, r)
            },
    }
}

/// What a batch gives when it was answered.
pub open spec fn batch_result<C: Fn() -> u64>(
    clock: &C,
    reply: OperationResult<BatchReply>,
    lists: Seq<Seq<PointOffsetType>>,
    top: nat,
    r: OperationResult<(Vec<Vec<ScoredPointOffset>>, HeterogeneousExactTimings)>,
) -> bool {
    match reply {
        Err(error) => r == Err::<
            (Vec<Vec<ScoredPointOffset>>, HeterogeneousExactTimings),
            OperationError,
        >(error),
        Ok(reply) => {
            &&& r matches Ok((results, timings))
            &&& results@.len() == lists.len()
            &&& forall|i: int|
                0 <= i < lists.len() ==> (#[trigger] results@[i])@ == request_result(
                    reply.points@,
                    lists,
                    top,
                    i,
                )
            &&& timings.total_candidates == packed_candidates(lists).len()
            &&& timed(clock, timings.prepare_ns)
            &&& timed(clock, timings.cpu_topk_ns)
            &&& timings.command_record_ns == reply.command_record_ns
            &&& timings.queue_submit_ns == reply.queue_submit_ns
            &&& timings.fence_wait_ns == reply.fence_wait_ns
            &&& timings.download_ns == reply.download_ns
        },
    }
}

/// Add words.
fn push_words(target: &mut Vec<u32>, words: &[u32])
    ensures
        final(target)@ == old(target)@ + words@,
{
    let ghost before = target@;
    let mut i: usize = 0;
    while i < words.len()
        invariant
            i <= words@.len(),
            target@ == before + words@.take(i as int),
        decreases words@.len() - i,
    {
        target.push(words[i]);
        proof {
            assert(words@.take(i + 1) =~= words@.take(i as int).push(words@[i as int]));
            assert(target@ =~= before + words@.take(i + 1));
        }
        i = i + 1;
    }
    proof {
        assert(words@.take(i as int) =~= words@);
    }
}

/// A query in a batch gets the best of its own candidates: when its places hold the best points of
/// its tiles, nothing is lost and nothing of another query is mixed in.
pub proof fn lemma_batch_is_exact(
    points: Seq<ScoredPointOffset>,
    lists: Seq<Seq<PointOffsetType>>,
    scored: Seq<ScoredPointOffset>,
    top: nat,
    i: int,
)
    requires
        0 <= i < lists.len(),
        top <= BLOCK_TOPK_LIMIT,
        holds_tile_tops(
            points.subrange(
                output_offset(lists.take(i)) as int,
                output_offset(lists.take(i + 1)) as int,
            ),
            scored,
        ),
    ensures
        request_result(points, lists, top, i) == top_ranked(scored, top),
{
    lemma_tiles_are_exact(
        points.subrange(
            output_offset(lists.take(i)) as int,
            output_offset(lists.take(i + 1)) as int,
        ),
        scored,
        top,
    );
}

/// The packed candidates of a query are its own: they stand where the shader is told.
pub proof fn lemma_packed_candidates(lists: Seq<Seq<PointOffsetType>>, i: int)
    requires
        0 <= i < lists.len(),
    ensures
        packed_candidates(lists.take(i)).len() + lists[i].len() <= packed_candidates(lists).len(),
        packed_candidates(lists).subrange(
            packed_candidates(lists.take(i)).len() as int,
            (packed_candidates(lists.take(i)).len() + lists[i].len()) as int,
        ) == lists[i],
    decreases lists.len(),
{
    let previous = lists.drop_last();
    let all = packed_candidates(lists);
    if i == lists.len() - 1 {
        assert(lists.take(i) =~= previous);
        assert(all.subrange(
            packed_candidates(previous).len() as int,
            all.len() as int,
        ) =~= lists[i]);
    } else {
        lemma_packed_candidates(previous, i);
        assert(previous.take(i) =~= lists.take(i));
        assert(previous[i] == lists[i]);
        let from = packed_candidates(lists.take(i)).len() as int;
        let to = from + lists[i].len();
        assert(all.subrange(from, to) =~= packed_candidates(previous).subrange(from, to));
    }
}

} // verus!
