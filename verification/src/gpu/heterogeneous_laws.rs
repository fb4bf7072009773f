//! What the shader of a batch is given, and what comes back for each of its queries.

use vstd::prelude::*;

use crate::arith::{ceil_div, lemma_ceil_div};
use crate::bits::{lemma_zero32, packed_bit32};
use crate::error::OperationResult;
use crate::gpu::block_topk::{tile_count, BLOCK_TOPK_LIMIT, BLOCK_TOPK_TILE_CANDIDATES};
use crate::gpu::commands::WORD_SIZE;
use crate::gpu::exact_context::{padded_queries, SCORED_POINT_SIZE};
use crate::gpu::exact_device_laws::{
    lemma_overwrite_first, lemma_padded_queries, lemma_vectors_at_start, starts_with, vector_at,
    ExactShaders,
};
use crate::gpu::graph_laws::zero_filled;
use crate::gpu::heterogeneous_exact_batch::{
    batch_buffers, batch_candidate_bytes, batch_metadata_bytes, batch_query_bytes, batch_ran,
    batch_result, batch_result_bytes, batch_search_steps, batch_searched, is_batch_submission,
    is_valid_request, lemma_batch_sizes, lemma_output_offsets, lemma_packed_candidates, max_tiles,
    output_offset, packed_candidates, request_metadata, BatchBuffer, BatchReply, BatchStep,
    BatchSubmission, GpuHeterogeneousExactBatchContext, HeterogeneousExactTimings, METADATA_WORDS,
};
use crate::gpu::search_commands::{steps, Kernel, SearchStep};
use crate::gpu::search_device::{
    contents, is_idle, is_only_place, is_recorded, lemma_created, lemma_dispatch,
    lemma_performed_next, lemma_recorded, lemma_run, lemma_worked_next, only_creates,
    performed_all, words_of, worked_all, Kernels, SearchDevice, Working,
};
use crate::gpu::search_laws::{holds_shown_tops, lemma_shown_tiles, shown};
use crate::storage::VectorElementType;
use crate::top_k::top_ranked;
use crate::types::{PointOffsetType, ScoredPointOffset};

verus! {

/// Device of a batch.
pub type BatchDevice = SearchDevice<BatchBuffer>;

/// The device has the buffer, and there is room for so many words in it.
pub open spec fn has_space(device: BatchDevice, buffer: BatchBuffer, words: int) -> bool {
    device.memory.contains_key(buffer) && words <= device.memory[buffer].len()
}

/// The device has the buffers of a context, with room for every batch that the context admits, and
/// one that hides no point.
pub open spec fn holds_batch_buffers(
    device: BatchDevice,
    context: GpuHeterogeneousExactBatchContext,
) -> bool {
    let batch = context.batch_capacity as int;
    let candidates = context.candidate_capacity * batch;
    let queries = context.storage.vector_capacity * batch;
    let tiles = ceil_div(context.candidate_capacity as int, BLOCK_TOPK_TILE_CANDIDATES as int);
    let places = tiles * BLOCK_TOPK_LIMIT * batch;
    &&& is_idle(device)
    &&& has_space(device, BatchBuffer::Candidates, candidates)
    &&& has_space(device, BatchBuffer::CandidateStaging, candidates)
    &&& has_space(device, BatchBuffer::Query, queries)
    &&& has_space(device, BatchBuffer::QueryStaging, queries)
    &&& has_space(device, BatchBuffer::Metadata, 4 * batch)
    &&& has_space(device, BatchBuffer::MetadataStaging, 4 * batch)
    &&& has_space(device, BatchBuffer::Results, 2 * places)
    &&& has_space(device, BatchBuffer::ResultStaging, 2 * places)
    &&& device.memory.contains_key(BatchBuffer::ZeroVisibility)
    &&& forall|p: int| !#[trigger] packed_bit32(device.memory[BatchBuffer::ZeroVisibility], p)
}

/// Where the candidates and the places of a query are: four words for each query tell where its
/// candidates start, how many there are, and where its places start.
pub ghost struct Place {
    pub start: int,
    pub count: int,
    pub output: int,
}

/// What the words say of a query.
pub open spec fn place_of(words: Seq<u32>, q: int) -> Place {
    Place {
        start: words[4 * q] as int,
        count: words[4 * q + 1] as int,
        output: words[4 * q + 2] as int,
    }
}

/// Number of places of a query.
pub open spec fn places_in(place: Place) -> int {
    ceil_div(place.count, BLOCK_TOPK_TILE_CANDIDATES as int) * BLOCK_TOPK_LIMIT
}

/// The points whose bit is set.
pub open spec fn marked(words: Seq<u32>) -> spec_fn(PointOffsetType) -> bool {
    |point_id: PointOffsetType| packed_bit32(words, point_id as int)
}

/// The slots of the shader have room for its queries, it runs in enough groups for all of them, and
/// no place is used by two queries.
pub open spec fn can_rank_batch(
    capacity: nat,
    slots: Seq<Seq<u32>>,
    x: nat,
    y: nat,
) -> bool {
    &&& slots.len() == 5
    &&& y * capacity <= slots[1].len()
    &&& 4 * y <= slots[3].len()
    &&& forall|q: int|
        0 <= q < y ==> {
            let place = #[trigger] place_of(slots[3], q);
            &&& place.start + place.count <= slots[0].len()
            &&& ceil_div(place.count, BLOCK_TOPK_TILE_CANDIDATES as int) <= x
            &&& 2 * (place.output + places_in(place)) <= slots[2].len()
        }
    &&& forall|q: int, k: int|
        0 <= q < k < y ==> (#[trigger] place_of(slots[3], q)).output + places_in(
            place_of(slots[3], q),
        ) <= (#[trigger] place_of(slots[3], k)).output
}

/// The shader looks for the best candidates of every tile, for these contents of its slots:
/// candidates in the first one, vectors in the second, and in the fourth where the candidates and
/// places of each vector are. It leaves out points whose bit is set in the fifth slot. In the third
/// slot it leaves the places.
pub open spec fn ranks_batch(
    kernels: Kernels<BatchBuffer>,
    shaders: ExactShaders,
    capacity: nat,
    slots: Seq<Seq<u32>>,
    memory: Map<BatchBuffer, Seq<u32>>,
    x: nat,
    y: nat,
) -> bool {
    let output = kernels(Kernel::HeterogeneousBlockTopk, slots, memory, x, y);
    can_rank_batch(capacity, slots, x, y) ==> {
        &&& output.len() == 5
        &&& output[2].len() == slots[2].len()
        &&& forall|q: int|
            0 <= q < y ==> {
                let place = #[trigger] place_of(slots[3], q);
                holds_shown_tops(
                    shaders.points_in(
                        output[2].subrange(
                            2 * place.output,
                            2 * (place.output + places_in(place)),
                        ),
                    ),
                    shaders.scored(
                        vector_at(slots[1], q, capacity),
                        slots[0].subrange(place.start, place.start + place.count),
                    ),
                    marked(slots[4]),
                )
            }
    }
}

/// The shader does what it is for, whatever is in its slots.
pub open spec fn batch_shader_works(
    kernels: Kernels<BatchBuffer>,
    shaders: ExactShaders,
    capacity: nat,
) -> bool {
    forall|slots: Seq<Seq<u32>>, memory: Map<BatchBuffer, Seq<u32>>, x: nat, y: nat| #[trigger]
        ranks_batch(kernels, shaders, capacity, slots, memory, x, y)
}

/// Submissions are performed on a device with the buffers of the context and the resident buffers,
/// and points are read from the start of the download buffer. Nothing is known of what comes back
/// when a command goes wrong.
pub open spec fn performs_batches<
    R: Fn(&BatchSubmission, usize) -> OperationResult<BatchReply>,
>(
    run: &R,
    context: GpuHeterogeneousExactBatchContext,
    kernels: Kernels<BatchBuffer>,
    shaders: ExactShaders,
    buffers: spec_fn(u64) -> Seq<u32>,
) -> bool {
    forall|submission: &BatchSubmission, count: usize, reply: BatchReply| #[trigger]
        run.ensures((submission, count), Ok(reply)) ==> exists|device: BatchDevice|
            {
                let all = steps(submission.commands@);
                let after = performed_all(kernels, device, all, all.len());
                &&& #[trigger] holds_batch_buffers(device, context)
                &&& forall|id: u64| #[trigger]
                    device.memory.contains_key(BatchBuffer::Resident { id })
                        && device.memory[BatchBuffer::Resident { id }] == buffers(id)
                &&& !after.fault && 2 * count
                    <= after.memory[BatchBuffer::ResultStaging].len() ==> reply.points@
                    == shaders.points_in(
                    after.memory[BatchBuffer::ResultStaging].take(2 * count as int),
                )
            }
}

/// The points that a buffer on the device hides. Without one no point is hidden.
pub open spec fn hidden_in(
    visibility: Option<u64>,
    buffers: spec_fn(u64) -> Seq<u32>,
) -> spec_fn(PointOffsetType) -> bool {
    |point_id: PointOffsetType|
        visibility is Some && packed_bit32(buffers(visibility->0), point_id as int)
}

/// What the shader is told of a query.
proof fn lemma_metadata(
    context: GpuHeterogeneousExactBatchContext,
    lists: Seq<Seq<PointOffsetType>>,
    q: int,
)
    requires
        context.wf(),
        0 <= q < lists.len() <= context.batch_capacity,
        forall|i: int|
            0 <= i < lists.len() ==> 0 < (#[trigger] lists[i]).len()
                <= context.candidate_capacity,
    ensures
        request_metadata(lists).len() == 4 * lists.len(),
        place_of(request_metadata(lists), q) == (Place {
            start: packed_candidates(lists.take(q)).len() as int,
            count: lists[q].len() as int,
            output: output_offset(lists.take(q)) as int,
        }),
        tile_count(lists[q].len()) <= max_tiles(lists),
        output_offset(lists.take(q + 1)) == output_offset(lists.take(q)) + tile_count(
            lists[q].len(),
        ) * BLOCK_TOPK_LIMIT as nat,
    decreases lists.len(),
{
    let previous = lists.drop_last();
    let n = previous.len() as int;
    assert forall|i: int| 0 <= i < previous.len() implies 0 < (#[trigger] previous[i]).len()
        <= context.candidate_capacity by {
        assert(previous[i] == lists[i]);
    }
    lemma_batch_sizes(context, previous);
    lemma_batch_sizes(context, lists);
    if n > 0 {
        lemma_metadata(context, previous, 0);
    }
    assert(request_metadata(previous).len() == 4 * n);
    assert(lists.take(q + 1).drop_last() =~= lists.take(q));
    assert(lists.take(q + 1).last() == lists[q]);
    lemma_ceil_div(lists.last().len() as int, BLOCK_TOPK_TILE_CANDIDATES as int);
    if q == n {
        assert(lists.take(q) =~= previous);
        assert(lists.last() == lists[q]);
        let words = request_metadata(lists);
        assert(words[4 * q] == packed_candidates(previous).len() as u32);
        assert(words[4 * q + 1] == lists.last().len() as u32);
        assert(words[4 * q + 2] == output_offset(previous) as u32);
        assert(packed_candidates(lists).len() == packed_candidates(previous).len()
            + lists.last().len());
    } else {
        lemma_metadata(context, previous, q);
        assert(previous.take(q) =~= lists.take(q));
        assert(previous[q] == lists[q]);
        let words = request_metadata(lists);
        let first = request_metadata(previous);
        assert(words[4 * q] == first[4 * q]);
        assert(words[4 * q + 1] == first[4 * q + 1]);
        assert(words[4 * q + 2] == first[4 * q + 2]);
    }
}

/// The shader of a batch is given the candidates and vectors of the queries and where they are, and
/// what it leaves in the third slot is what comes back.
#[verifier::rlimit(40)]
proof fn lemma_batch_reaches_shader(
    kernels: Kernels<BatchBuffer>,
    device: BatchDevice,
    context: GpuHeterogeneousExactBatchContext,
    queries: Seq<Seq<VectorElementType>>,
    lists: Seq<Seq<PointOffsetType>>,
    visibility: Option<u64>,
) -> (r: (Seq<Seq<u32>>, Map<BatchBuffer, Seq<u32>>))
    requires
        holds_batch_buffers(device, context),
        visibility matches Some(id) ==> device.memory.contains_key(BatchBuffer::Resident { id }),
        queries.len() == lists.len(),
        0 < lists.len(),
        packed_candidates(lists).len() <= device.memory[BatchBuffer::Candidates].len(),
        packed_candidates(lists).len() <= device.memory[BatchBuffer::CandidateStaging].len(),
        request_metadata(lists).len() <= device.memory[BatchBuffer::Metadata].len(),
        request_metadata(lists).len() <= device.memory[BatchBuffer::MetadataStaging].len(),
        queries.len() * context.storage.vector_capacity
            <= device.memory[BatchBuffer::Query].len(),
        queries.len() * context.storage.vector_capacity
            <= device.memory[BatchBuffer::QueryStaging].len(),
        2 * output_offset(lists) <= device.memory[BatchBuffer::Results].len(),
        2 * output_offset(lists) <= device.memory[BatchBuffer::ResultStaging].len(),
    ensures
        r.0.len() == 5,
        starts_with(r.0[0], packed_candidates(lists)),
        starts_with(
            r.0[1],
            padded_queries(queries, context.storage.vector_capacity as nat),
        ),
        r.0[2].len() == device.memory[BatchBuffer::Results].len(),
        starts_with(r.0[3], request_metadata(lists)),
        r.0[4] == (match visibility {
            Some(id) => device.memory[BatchBuffer::Resident { id }],
            None => device.memory[BatchBuffer::ZeroVisibility],
        }),
        ({
            let all = batch_search_steps(context, queries, lists, visibility);
            let after = performed_all(kernels, device, all, all.len());
            let output = kernels(
                Kernel::HeterogeneousBlockTopk,
                r.0,
                r.1,
                max_tiles(lists),
                lists.len(),
            );
            let n = 2 * output_offset(lists) as int;
            output.len() == 5 && output[2].len() == r.0[2].len() ==> {
                &&& !after.fault
                &&& n <= after.memory[BatchBuffer::ResultStaging].len()
                &&& after.memory[BatchBuffer::ResultStaging].take(n) == output[2].take(n)
            }
        }),
{
    let capacity = context.storage.vector_capacity as nat;
    let all = batch_search_steps(context, queries, lists, visibility);
    let candidates = packed_candidates(lists);
    let words = padded_queries(queries, capacity);
    let metadata = request_metadata(lists);
    lemma_padded_queries(queries, capacity, 0);
    let d3 = performed_all(kernels, device, all, 3);
    assert(all.len() == 12);
    assert(performed_all(kernels, device, all, 0) == device);
    lemma_performed_next(kernels, device, all, 0);
    lemma_performed_next(kernels, device, all, 1);
    lemma_performed_next(kernels, device, all, 2);
    assert(all[0] == (SearchStep::Upload {
        buffer: BatchBuffer::CandidateStaging,
        words: candidates,
    }));
    assert(all[1] == (SearchStep::Upload { buffer: BatchBuffer::QueryStaging, words }));
    assert(all[2] == (SearchStep::Upload {
        buffer: BatchBuffer::MetadataStaging,
        words: metadata,
    }));
    lemma_overwrite_first(device.memory[BatchBuffer::CandidateStaging], candidates);
    lemma_overwrite_first(device.memory[BatchBuffer::QueryStaging], words);
    lemma_overwrite_first(device.memory[BatchBuffer::MetadataStaging], metadata);
    assert(!d3.fault && d3.recorded == device.recorded);
    assert forall|i: int| 3 <= i < 11 implies is_recorded(#[trigger] all[i]) by {}
    lemma_recorded(kernels, device, all, 3, 11);
    let work = all.subrange(3, 11);
    assert(d3.recorded + work =~= work);
    let d11 = performed_all(kernels, device, all, 11);
    lemma_performed_next(kernels, device, all, 11);
    assert(all[11] == SearchStep::<BatchBuffer>::Run);
    lemma_run(kernels, d11);
    let start = Working {
        memory: d3.memory,
        unsettled: Set::empty(),
        bound: None,
        fault: false,
    };
    lemma_batch_copies(kernels, start, work, candidates, words, metadata);
    let state = worked_all(kernels, start, work, 4);
    let storage = seq![
        BatchBuffer::Candidates,
        BatchBuffer::Query,
        BatchBuffer::Results,
        BatchBuffer::Metadata,
        match visibility {
            Some(id) => BatchBuffer::Resident { id },
            None => BatchBuffer::ZeroVisibility,
        },
    ];
    let bytes = output_offset(lists) * SCORED_POINT_SIZE as nat;
    let n = output_offset(lists) as int;
    assert((n * 8) / 4 == 2 * n) by (nonlinear_arith);
    assert(words_of(bytes) == 2 * n);
    assert forall|i: int| 0 <= i < storage.len() implies state.memory.contains_key(
        #[trigger] storage[i],
    ) && !state.unsettled.contains(storage[i]) by {
        assert(device.memory.contains_key(storage[i]));
        assert(d3.memory.contains_key(storage[i]));
    }
    lemma_batch_tail(
        kernels,
        start,
        work,
        storage,
        max_tiles(lists),
        lists.len(),
        bytes,
    );
    let slots = contents(state.memory, storage);
    assert(slots[0] == state.memory[storage[0]]);
    assert(slots[1] == state.memory[storage[1]]);
    assert(slots[2] == state.memory[storage[2]]);
    assert(slots[3] == state.memory[storage[3]]);
    assert(slots[4] == state.memory[storage[4]]);
    (slots, state.memory)
}

/// The first part of the submitted work of a batch: what was uploaded is copied and settled.
proof fn lemma_batch_copies(
    kernels: Kernels<BatchBuffer>,
    start: Working<BatchBuffer>,
    work: Seq<BatchStep>,
    candidates: Seq<u32>,
    words: Seq<u32>,
    metadata: Seq<u32>,
)
    requires
        work.len() == 8,
        work[0] == (SearchStep::Copy {
            source: BatchBuffer::CandidateStaging,
            target: BatchBuffer::Candidates,
            bytes: candidates.len() * WORD_SIZE as nat,
        }),
        work[1] == (SearchStep::Copy {
            source: BatchBuffer::QueryStaging,
            target: BatchBuffer::Query,
            bytes: words.len() * WORD_SIZE as nat,
        }),
        work[2] == (SearchStep::Copy {
            source: BatchBuffer::MetadataStaging,
            target: BatchBuffer::Metadata,
            bytes: metadata.len() * WORD_SIZE as nat,
        }),
        work[3] == (SearchStep::Barrier {
            buffers: seq![BatchBuffer::Candidates, BatchBuffer::Query, BatchBuffer::Metadata],
        }),
        !start.fault,
        start.unsettled == Set::<BatchBuffer>::empty(),
        start.memory.contains_key(BatchBuffer::CandidateStaging),
        start.memory.contains_key(BatchBuffer::Candidates),
        start.memory.contains_key(BatchBuffer::QueryStaging),
        start.memory.contains_key(BatchBuffer::Query),
        start.memory.contains_key(BatchBuffer::MetadataStaging),
        start.memory.contains_key(BatchBuffer::Metadata),
        starts_with(start.memory[BatchBuffer::CandidateStaging], candidates),
        starts_with(start.memory[BatchBuffer::QueryStaging], words),
        starts_with(start.memory[BatchBuffer::MetadataStaging], metadata),
        candidates.len() <= start.memory[BatchBuffer::Candidates].len(),
        words.len() <= start.memory[BatchBuffer::Query].len(),
        metadata.len() <= start.memory[BatchBuffer::Metadata].len(),
    ensures
        ({
            let state = worked_all(kernels, start, work, 4);
            &&& !state.fault
            &&& state.unsettled == Set::<BatchBuffer>::empty()
            &&& starts_with(state.memory[BatchBuffer::Candidates], candidates)
            &&& starts_with(state.memory[BatchBuffer::Query], words)
            &&& starts_with(state.memory[BatchBuffer::Metadata], metadata)
            &&& forall|buffer: BatchBuffer| #[trigger]
                state.memory.contains_key(buffer) == start.memory.contains_key(buffer)
            &&& state.memory[BatchBuffer::Results] == start.memory[BatchBuffer::Results]
            &&& state.memory[BatchBuffer::ResultStaging]
                == start.memory[BatchBuffer::ResultStaging]
            &&& state.memory[BatchBuffer::ZeroVisibility]
                == start.memory[BatchBuffer::ZeroVisibility]
            &&& forall|id: u64| #[trigger]
                state.memory[BatchBuffer::Resident { id }]
                    == start.memory[BatchBuffer::Resident { id }]
        }),
{
    let w1 = worked_all(kernels, start, work, 1);
    let w2 = worked_all(kernels, start, work, 2);
    let w3 = worked_all(kernels, start, work, 3);
    let w4 = worked_all(kernels, start, work, 4);
    assert(worked_all(kernels, start, work, 0) == start);
    lemma_worked_next(kernels, start, work, 0);
    lemma_worked_next(kernels, start, work, 1);
    lemma_worked_next(kernels, start, work, 2);
    lemma_worked_next(kernels, start, work, 3);
    assert(words_of(candidates.len() * WORD_SIZE as nat) == candidates.len());
    assert(words_of(words.len() * WORD_SIZE as nat) == words.len());
    assert(words_of(metadata.len() * WORD_SIZE as nat) == metadata.len());
    lemma_overwrite_first(start.memory[BatchBuffer::Candidates], candidates);
    lemma_overwrite_first(start.memory[BatchBuffer::Query], words);
    lemma_overwrite_first(start.memory[BatchBuffer::Metadata], metadata);
    assert(!w1.fault);
    assert(!w2.fault);
    assert(!w3.fault);
    let settled = seq![BatchBuffer::Candidates, BatchBuffer::Query, BatchBuffer::Metadata];
    assert(settled[0] == BatchBuffer::Candidates && settled[1] == BatchBuffer::Query && settled[2]
        == BatchBuffer::Metadata);
    assert(settled.contains(BatchBuffer::Candidates) && settled.contains(BatchBuffer::Query)
        && settled.contains(BatchBuffer::Metadata));
    assert(w4.unsettled =~= Set::<BatchBuffer>::empty());
}

/// The last part of the submitted work of a batch: the shader runs, and its output is copied.
proof fn lemma_batch_tail(
    kernels: Kernels<BatchBuffer>,
    start: Working<BatchBuffer>,
    work: Seq<BatchStep>,
    storage: Seq<BatchBuffer>,
    x: nat,
    y: nat,
    bytes: nat,
)
    requires
        work.len() == 8,
        work[4] == (SearchStep::Bind { kernel: Kernel::HeterogeneousBlockTopk, storage }),
        work[5] == (SearchStep::<BatchBuffer>::Dispatch { x, y }),
        work[6] == (SearchStep::Barrier { buffers: seq![BatchBuffer::Results] }),
        work[7] == (SearchStep::Copy {
            source: BatchBuffer::Results,
            target: BatchBuffer::ResultStaging,
            bytes,
        }),
        storage.len() == 5,
        storage[2] == BatchBuffer::Results,
        is_only_place(storage, 2),
        !storage.contains(BatchBuffer::ResultStaging),
        ({
            let state = worked_all(kernels, start, work, 4);
            &&& !state.fault
            &&& forall|i: int|
                0 <= i < storage.len() ==> state.memory.contains_key(#[trigger] storage[i])
                    && !state.unsettled.contains(storage[i])
            &&& state.memory.contains_key(BatchBuffer::ResultStaging)
            &&& words_of(bytes) <= state.memory[BatchBuffer::ResultStaging].len()
            &&& words_of(bytes) <= state.memory[BatchBuffer::Results].len()
        }),
    ensures
        ({
            let state = worked_all(kernels, start, work, 4);
            let output = kernels(
                Kernel::HeterogeneousBlockTopk,
                contents(state.memory, storage),
                state.memory,
                x,
                y,
            );
            let after = worked_all(kernels, start, work, 8);
            output.len() == 5 && output[2].len() == state.memory[BatchBuffer::Results].len() ==> {
                &&& !after.fault
                &&& words_of(bytes) <= after.memory[BatchBuffer::ResultStaging].len()
                &&& after.memory[BatchBuffer::ResultStaging].take(words_of(bytes) as int)
                    == output[2].take(words_of(bytes) as int)
            }
        }),
{
    let kernel = Kernel::HeterogeneousBlockTopk;
    let w4 = worked_all(kernels, start, work, 4);
    let w5 = worked_all(kernels, start, work, 5);
    let w6 = worked_all(kernels, start, work, 6);
    let w7 = worked_all(kernels, start, work, 7);
    lemma_worked_next(kernels, start, work, 4);
    lemma_worked_next(kernels, start, work, 5);
    lemma_worked_next(kernels, start, work, 6);
    lemma_worked_next(kernels, start, work, 7);
    lemma_dispatch(kernels, w5, kernel, storage, x, y);
    let output = kernels(kernel, contents(w4.memory, storage), w4.memory, x, y);
    if output.len() == 5 && output[2].len() == w4.memory[BatchBuffer::Results].len() {
        assert(w6.memory[storage[2]] == output[2]);
        let settled = seq![BatchBuffer::Results];
        assert(settled[0] == BatchBuffer::Results);
        assert(settled.contains(BatchBuffer::Results));
        assert(!w7.unsettled.contains(BatchBuffer::Results));
        assert(w6.memory.contains_key(BatchBuffer::Results));
        assert(w6.memory.contains_key(BatchBuffer::ResultStaging));
        assert(w6.memory[BatchBuffer::ResultStaging] == w5.memory[BatchBuffer::ResultStaging]);
        let n = words_of(bytes) as int;
        lemma_overwrite_first(w7.memory[BatchBuffer::ResultStaging], output[2].take(n));
        assert(output[2].take(n).len() == n);
    }
}

/// Every query of a batch gets the best of its own candidates that are not hidden, scored for its
/// own vector, whatever the other queries of the batch ask for.
pub proof fn lemma_batch_queries_get_their_best<
    R: Fn(&BatchSubmission, usize) -> OperationResult<BatchReply>,
    C: Fn() -> u64,
>(
    context: GpuHeterogeneousExactBatchContext,
    queries: Seq<Seq<VectorElementType>>,
    lists: Seq<Seq<PointOffsetType>>,
    top: nat,
    visibility: Option<u64>,
    run: &R,
    clock: &C,
    kernels: Kernels<BatchBuffer>,
    shaders: ExactShaders,
    buffers: spec_fn(u64) -> Seq<u32>,
    results: Vec<Vec<ScoredPointOffset>>,
    timings: HeterogeneousExactTimings,
)
    requires
        context.wf(),
        queries.len() == lists.len(),
        batch_searched(
            context,
            queries,
            lists,
            top,
            visibility,
            run,
            clock,
            Ok((results, timings)),
        ),
        performs_batches(run, context, kernels, shaders, buffers),
        batch_shader_works(kernels, shaders, context.storage.vector_capacity as nat),
    ensures
        results@.len() == lists.len(),
        forall|i: int|
            0 <= i < lists.len() ==> (#[trigger] results@[i])@ == top_ranked(
                shown(
                    shaders.scored(
                        zero_filled(queries[i], context.storage.vector_capacity as nat),
                        lists[i],
                    ),
                    hidden_in(visibility, buffers),
                ),
                top,
            ),
{
    let capacity = context.storage.vector_capacity as nat;
    let r: OperationResult<(Vec<Vec<ScoredPointOffset>>, HeterogeneousExactTimings)> = Ok(
        (results, timings),
    );
    let outcome = choose|reply: OperationResult<BatchReply>|
        {
            &&& #[trigger] batch_ran(run, context, queries, lists, visibility, reply)
            &&& batch_result(clock, reply, lists, top, r)
        };
    let reply = outcome->Ok_0;
    let (submission, count) = choose|submission: &BatchSubmission, count: usize|
        {
            &&& #[trigger] run.ensures((submission, count), outcome)
            &&& count == output_offset(lists)
            &&& is_batch_submission(*submission, context, queries, lists, visibility)
        };
    assert(run.ensures((submission, count), Ok(reply)));
    let all = batch_search_steps(context, queries, lists, visibility);
    let device = choose|device: BatchDevice|
        {
            let after = performed_all(kernels, device, all, all.len());
            &&& #[trigger] holds_batch_buffers(device, context)
            &&& forall|id: u64| #[trigger]
                device.memory.contains_key(BatchBuffer::Resident { id })
                    && device.memory[BatchBuffer::Resident { id }] == buffers(id)
            &&& !after.fault && 2 * count <= after.memory[BatchBuffer::ResultStaging].len()
                ==> reply.points@ == shaders.points_in(
                after.memory[BatchBuffer::ResultStaging].take(2 * count as int),
            )
        };
    assert forall|i: int| 0 <= i < lists.len() implies 0 < (#[trigger] lists[i]).len()
        <= context.candidate_capacity by {
        assert(is_valid_request(context, queries, lists, i));
    }
    lemma_batch_fits(context, lists, queries.len());
    lemma_metadata(context, lists, 0);
    if visibility is Some {
        assert(device.memory.contains_key(BatchBuffer::Resident { id: visibility->0 }));
    }
    let (slots, memory) = lemma_batch_reaches_shader(
        kernels,
        device,
        context,
        queries,
        lists,
        visibility,
    );
    let x = max_tiles(lists);
    let y = lists.len();
    assert forall|q: int| 0 <= q < y implies {
        let place = #[trigger] place_of(slots[3], q);
        &&& place == place_of(request_metadata(lists), q)
        &&& place.start + place.count <= slots[0].len()
        &&& ceil_div(place.count, BLOCK_TOPK_TILE_CANDIDATES as int) <= x
        &&& places_in(place) == tile_count(lists[q].len()) * BLOCK_TOPK_LIMIT
        &&& place.output + places_in(place) == output_offset(lists.take(q + 1))
        &&& 2 * (place.output + places_in(place)) <= slots[2].len()
    } by {
        lemma_metadata(context, lists, q);
        lemma_at_start(slots[3], request_metadata(lists), 4 * q);
        lemma_at_start(slots[3], request_metadata(lists), 4 * q + 1);
        lemma_at_start(slots[3], request_metadata(lists), 4 * q + 2);
        lemma_packed_candidates(lists, q);
        lemma_output_offsets(lists, q + 1, lists.len() as int);
        assert(lists.take(lists.len() as int) =~= lists);
    }
    assert forall|q: int, k: int| 0 <= q < k < y implies (#[trigger] place_of(
        slots[3],
        q,
    )).output + places_in(place_of(slots[3], q)) <= (#[trigger] place_of(slots[3], k)).output by {
        lemma_metadata(context, lists, q);
        lemma_metadata(context, lists, k);
        lemma_output_offsets(lists, q + 1, k);
    }
    lemma_padded_queries(queries, capacity, 0);
    assert(can_rank_batch(capacity, slots, x, y));
    assert(ranks_batch(kernels, shaders, capacity, slots, memory, x, y));
    let output = kernels(Kernel::HeterogeneousBlockTopk, slots, memory, x, y);
    let n = 2 * count as int;
    let after = performed_all(kernels, device, all, all.len());
    let words = after.memory[BatchBuffer::ResultStaging].take(n);
    assert(words == output[2].take(n));
    assert(reply.points@ == shaders.points_in(words));
    let hidden = hidden_in(visibility, buffers);
    assert(marked(slots[4]) =~= hidden);
    assert forall|i: int| 0 <= i < lists.len() implies (#[trigger] results@[i])@ == top_ranked(
        shown(shaders.scored(zero_filled(queries[i], capacity), lists[i]), hidden),
        top,
    ) by {
        let place = place_of(slots[3], i);
        lemma_metadata(context, lists, i);
        let from = output_offset(lists.take(i)) as int;
        let to = output_offset(lists.take(i + 1)) as int;
        lemma_output_offsets(lists, i, i + 1);
        lemma_output_offsets(lists, i + 1, lists.len() as int);
        assert(lists.take(lists.len() as int) =~= lists);
        assert(reply.points@.subrange(from, to) =~= shaders.points_in(
            output[2].subrange(2 * from, 2 * to),
        ));
        lemma_padded_queries(queries, capacity, i);
        lemma_vectors_at_start(slots[1], padded_queries(queries, capacity), i, capacity);
        lemma_packed_candidates(lists, i);
        let packed = packed_candidates(lists);
        assert(slots[0].subrange(place.start, place.start + place.count) =~= packed.subrange(
            place.start,
            place.start + place.count,
        )) by {
            assert(slots[0].take(packed.len() as int) == packed);
            assert forall|j: int| 0 <= j < packed.len() implies slots[0][j] == packed[j] by {
                lemma_at_start(slots[0], packed, j);
            }
        }
        let scored = shaders.scored(zero_filled(queries[i], capacity), lists[i]);
        lemma_shown_tiles(reply.points@.subrange(from, to), scored, hidden, top);
    }
}

/// A word at the start of more words.
proof fn lemma_at_start(words: Seq<u32>, first: Seq<u32>, i: int)
    requires
        starts_with(words, first),
        0 <= i < first.len(),
    ensures
        words[i] == first[i],
{
    assert(words.take(first.len() as int)[i] == words[i]);
}

/// A batch fits the buffers of its context.
proof fn lemma_batch_fits(
    context: GpuHeterogeneousExactBatchContext,
    lists: Seq<Seq<PointOffsetType>>,
    count: nat,
)
    requires
        context.wf(),
        count == lists.len() <= context.batch_capacity,
        forall|i: int|
            0 <= i < lists.len() ==> 0 < (#[trigger] lists[i]).len()
                <= context.candidate_capacity,
    ensures
        packed_candidates(lists).len() <= context.candidate_capacity * context.batch_capacity,
        count * context.storage.vector_capacity <= context.storage.vector_capacity
            * context.batch_capacity,
        output_offset(lists) <= ceil_div(
            context.candidate_capacity as int,
            BLOCK_TOPK_TILE_CANDIDATES as int,
        ) * BLOCK_TOPK_LIMIT * context.batch_capacity,
{
    lemma_batch_sizes(context, lists);
    let n = count as int;
    let candidates = context.candidate_capacity as int;
    let batch = context.batch_capacity as int;
    let capacity = context.storage.vector_capacity as int;
    let tiles = ceil_div(candidates, BLOCK_TOPK_TILE_CANDIDATES as int);
    lemma_ceil_div(candidates, BLOCK_TOPK_TILE_CANDIDATES as int);
    assert(n * candidates <= candidates * batch && n * capacity <= capacity * batch && n * tiles
        * BLOCK_TOPK_LIMIT <= tiles * BLOCK_TOPK_LIMIT * batch) by (nonlinear_arith)
        requires
            0 <= n <= batch,
            0 <= candidates,
            0 <= capacity,
            0 <= tiles,
    ;
}

/// The same first commands do the same.
proof fn lemma_same_start(
    kernels: Kernels<BatchBuffer>,
    device: BatchDevice,
    a: Seq<BatchStep>,
    b: Seq<BatchStep>,
    n: nat,
)
    requires
        n <= a.len(),
        n <= b.len(),
        forall|i: int| 0 <= i < n ==> #[trigger] a[i] == b[i],
    ensures
        performed_all(kernels, device, a, n) == performed_all(kernels, device, b, n),
    decreases n,
{
    if n > 0 {
        lemma_same_start(kernels, device, a, b, (n - 1) as nat);
        assert(a[n - 1] == b[n - 1]);
    }
}

/// The buffers that a context makes have room for every batch that it admits, and the last of them
/// hides no point.
pub proof fn lemma_batch_buffers_fit(
    kernels: Kernels<BatchBuffer>,
    device: BatchDevice,
    context: GpuHeterogeneousExactBatchContext,
)
    requires
        is_idle(device),
        context.wf(),
    ensures
        ({
            let all = batch_buffers(
                context.storage,
                context.candidate_capacity as nat,
                context.batch_capacity as nat,
            );
            holds_batch_buffers(performed_all(kernels, device, all, all.len()), context)
        }),
{
    let all = batch_buffers(
        context.storage,
        context.candidate_capacity as nat,
        context.batch_capacity as nat,
    );
    let made = all.take(9);
    let candidates = context.candidate_capacity as int;
    let batch = context.batch_capacity as int;
    let capacity = context.storage.vector_capacity as int;
    let tiles = ceil_div(candidates, BLOCK_TOPK_TILE_CANDIDATES as int);
    lemma_ceil_div(candidates, BLOCK_TOPK_TILE_CANDIDATES as int);
    lemma_ceil_div(context.storage.num_vectors as int, 32);
    assert(all.len() == 11);
    assert(made[0]->Create_buffer == BatchBuffer::Candidates);
    assert(made[1]->Create_buffer == BatchBuffer::CandidateStaging);
    assert(made[2]->Create_buffer == BatchBuffer::Query);
    assert(made[3]->Create_buffer == BatchBuffer::QueryStaging);
    assert(made[4]->Create_buffer == BatchBuffer::Metadata);
    assert(made[5]->Create_buffer == BatchBuffer::MetadataStaging);
    assert(made[6]->Create_buffer == BatchBuffer::Results);
    assert(made[7]->Create_buffer == BatchBuffer::ResultStaging);
    assert(made[8]->Create_buffer == BatchBuffer::ZeroVisibility);
    assert(only_creates(made));
    lemma_created(kernels, device, made, 9);
    lemma_same_start(kernels, device, made, all, 9);
    let d9 = performed_all(kernels, device, all, 9);
    let d10 = performed_all(kernels, device, all, 10);
    let d11 = performed_all(kernels, device, all, 11);
    lemma_performed_next(kernels, device, all, 9);
    lemma_performed_next(kernels, device, all, 10);
    assert(all[9] == (SearchStep::Clear { buffer: BatchBuffer::ZeroVisibility }));
    assert(all[10] == SearchStep::<BatchBuffer>::Run);
    assert(d10.recorded =~= seq![all[9]]);
    lemma_run(kernels, d10);
    let start = Working {
        memory: d10.memory,
        unsettled: Set::empty(),
        bound: None,
        fault: d10.fault,
    };
    assert(worked_all(kernels, start, d10.recorded, 0) == start);
    lemma_worked_next(kernels, start, d10.recorded, 0);
    lemma_zero32();
    assert forall|p: int| !#[trigger] packed_bit32(
        d11.memory[BatchBuffer::ZeroVisibility],
        p,
    ) by {}
    let candidate_bytes = batch_candidate_bytes(
        context.candidate_capacity as nat,
        context.batch_capacity as nat,
    );
    assert(candidate_bytes == candidates * batch * 4);
    assert(words_of(candidate_bytes) == candidate_bytes / 4);
    let query_bytes = batch_query_bytes(context.storage, context.batch_capacity as nat);
    assert(query_bytes == capacity * batch * 4);
    assert(words_of(query_bytes) == query_bytes / 4);
    let metadata_bytes = batch_metadata_bytes(context.batch_capacity as nat);
    assert(metadata_bytes == batch * METADATA_WORDS * WORD_SIZE);
    assert(words_of(metadata_bytes) == metadata_bytes / 4);
    let result_bytes = batch_result_bytes(
        context.candidate_capacity as nat,
        context.batch_capacity as nat,
    );
    let places = tiles * BLOCK_TOPK_LIMIT * batch;
    assert(result_bytes == places * 8);
    assert((places * 8) / 4 == 2 * places) by (nonlinear_arith);
    assert(words_of(result_bytes) == 2 * places);
}

} // verus!
