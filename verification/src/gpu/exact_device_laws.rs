//! What the shaders of an exact search are given, and what their output means.

use vstd::prelude::*;

use crate::arith::{ceil_div, lemma_ceil_div};
use crate::bits::packed_bit32;
use crate::error::OperationResult;
use crate::gpu::block_topk::{tile_count, BLOCK_TOPK_LIMIT, BLOCK_TOPK_TILE_CANDIDATES};
use crate::gpu::commands::{overwrite, WORD_SIZE};
use crate::gpu::exact_context::{
    answers, batch_fault, can_run, context_buffers, exact_kernel, is_submission_of, output_per_query,
    output_size, padded_queries, query_bytes, resident_steps, score_bytes, submission_steps,
    uses_block_topk, visibility_words,
    ExactBuffer, ExactOutput, ExactReply, ExactStep, ExactSubmission, GpuExactSearchContext,
    GPU_EXACT_SUBMISSION_BATCH_LIMIT, SCORED_POINT_SIZE,
};
use crate::gpu::graph_laws::zero_filled;
use crate::gpu::search_commands::{steps, Kernel, SearchStep};
use crate::gpu::search_device::{
    contents, is_idle, is_only_place, is_recorded, lemma_created, lemma_dispatch, lemma_performed_next,
    lemma_recorded, lemma_run, lemma_worked_next, only_creates, performed_all, words_of, worked,
    worked_all, Kernels, SearchDevice, Working,
};
use crate::gpu::search_laws::{
    follows_model, holds_shown_tops, output_follows, DeviceModel,
};
use crate::storage::VectorElementType;
use crate::types::{PointOffsetType, ScoreType, ScoredPointOffset};

verus! {

/// Device of an exact search.
pub type ExactDevice = SearchDevice<ExactBuffer>;

/// The device has the buffer, and there is room for so many words in it.
pub open spec fn has_room(device: ExactDevice, buffer: ExactBuffer, words: int) -> bool {
    device.memory.contains_key(buffer) && words <= device.memory[buffer].len()
}

/// The device has the buffers of a context, with room for every search that the context admits.
pub open spec fn holds_exact_buffers(device: ExactDevice, context: GpuExactSearchContext) -> bool {
    let candidates = context.candidate_capacity as int;
    let places = 4 * (ceil_div(candidates, BLOCK_TOPK_TILE_CANDIDATES as int) * BLOCK_TOPK_LIMIT);
    let queries = 4 * context.storage.vector_capacity;
    &&& is_idle(device)
    &&& has_room(device, ExactBuffer::Candidates, candidates)
    &&& has_room(device, ExactBuffer::CandidateStaging, candidates)
    &&& has_room(device, ExactBuffer::Query, queries)
    &&& has_room(device, ExactBuffer::QueryStaging, queries)
    &&& has_room(device, ExactBuffer::Scores, candidates)
    &&& has_room(device, ExactBuffer::Scores, 2 * places)
    &&& has_room(device, ExactBuffer::ScoreStaging, candidates)
    &&& has_room(device, ExactBuffer::ScoreStaging, 2 * places)
}

/// What the shaders compute and how their output is read.
pub ghost struct ExactShaders {
    /// The score of a point for the elements of a vector.
    pub score: spec_fn(Seq<u32>, PointOffsetType) -> ScoreType,
    /// The score of a hidden point.
    pub hidden_score: ScoreType,
    pub read_score: spec_fn(u32) -> ScoreType,
    pub read_point: spec_fn(u32, u32) -> ScoredPointOffset,
}

impl ExactShaders {
    /// The scored points in words, two words for each.
    pub open spec fn points_in(self, words: Seq<u32>) -> Seq<ScoredPointOffset> {
        Seq::new(words.len() / 2, |i: int| (self.read_point)(words[2 * i], words[2 * i + 1]))
    }

    /// The candidates with their scores for a vector.
    pub open spec fn scored(
        self,
        vector: Seq<u32>,
        candidates: Seq<PointOffsetType>,
    ) -> Seq<ScoredPointOffset> {
        Seq::new(
            candidates.len(),
            |i: int|
                ScoredPointOffset {
                    idx: candidates[i],
                    score: (self.score)(vector, candidates[i]),
                },
        )
    }
}

/// One of several vectors of the same number of elements.
pub open spec fn vector_at(words: Seq<u32>, q: int, capacity: nat) -> Seq<u32> {
    words.subrange(q * capacity, (q + 1) * capacity)
}

/// The points that a shader leaves out: those whose bit is set in the fourth slot, if it has one.
pub open spec fn left_out(slots: Seq<Seq<u32>>) -> spec_fn(PointOffsetType) -> bool {
    |point_id: PointOffsetType| slots.len() == 4 && packed_bit32(slots[3], point_id as int)
}

/// The shader is one of those that leave points out.
pub open spec fn is_visible_kernel(kernel: Kernel) -> bool {
    kernel == Kernel::ExactVisibleScore || kernel == Kernel::ExactVisibleBlockTopk
}

/// A shader that scores, for these contents of its slots: candidates in the first one, vectors in the
/// second. In the third it leaves a score for each of the first candidates, as many as it runs in
/// groups.
pub open spec fn scores_over(
    kernels: Kernels<ExactBuffer>,
    shaders: ExactShaders,
    capacity: nat,
    kernel: Kernel,
    slots: Seq<Seq<u32>>,
    memory: Map<ExactBuffer, Seq<u32>>,
    x: nat,
) -> bool {
    let output = kernels(kernel, slots, memory, x, 1);
    can_score(capacity, kernel, slots, x) ==> {
        &&& output.len() == slots.len()
        &&& output[2].len() == slots[2].len()
        &&& forall|i: int|
            0 <= i < x ==> (shaders.read_score)(#[trigger] output[2][i]) == (if left_out(slots)(
                slots[0][i],
            ) {
                shaders.hidden_score
            } else {
                (shaders.score)(vector_at(slots[1], 0, capacity), slots[0][i])
            })
    }
}

/// The shader scores, and its slots have room.
pub open spec fn can_score(
    capacity: nat,
    kernel: Kernel,
    slots: Seq<Seq<u32>>,
    x: nat,
) -> bool {
    &&& kernel == Kernel::ExactScore || kernel == Kernel::ExactVisibleScore
    &&& slots.len() == (if is_visible_kernel(kernel) {
        4nat
    } else {
        3nat
    })
    &&& x <= slots[0].len()
    &&& capacity <= slots[1].len()
    &&& x <= slots[2].len()
}

/// A shader that looks for the best candidates of every tile, for these contents of its slots. In
/// the third slot it leaves, for one vector after the other, the places of all tiles.
pub open spec fn ranks_over(
    kernels: Kernels<ExactBuffer>,
    shaders: ExactShaders,
    capacity: nat,
    kernel: Kernel,
    slots: Seq<Seq<u32>>,
    memory: Map<ExactBuffer, Seq<u32>>,
    x: nat,
    y: nat,
) -> bool {
    let output = kernels(kernel, slots, memory, x, y);
    let places = x * BLOCK_TOPK_LIMIT;
    can_rank(capacity, kernel, slots, x, y) ==> {
        &&& output.len() == slots.len()
        &&& output[2].len() == slots[2].len()
        &&& forall|q: int|
            0 <= q < y ==> holds_shown_tops(
                shaders.points_in(output[2].subrange(2 * (q * places), 2 * ((q + 1) * places))),
                shaders.scored(#[trigger] vector_at(slots[1], q, capacity), slots[0]),
                left_out(slots),
            )
    }
}

/// The shader looks for the best candidates of every tile, and its slots have room.
pub open spec fn can_rank(
    capacity: nat,
    kernel: Kernel,
    slots: Seq<Seq<u32>>,
    x: nat,
    y: nat,
) -> bool {
    &&& kernel == Kernel::ExactBlockTopk || kernel == Kernel::ExactVisibleBlockTopk
    &&& slots.len() == (if is_visible_kernel(kernel) {
        4nat
    } else {
        3nat
    })
    &&& x == ceil_div(slots[0].len() as int, BLOCK_TOPK_TILE_CANDIDATES as int)
    &&& y * capacity <= slots[1].len()
    &&& 2 * (y * (x * BLOCK_TOPK_LIMIT)) <= slots[2].len()
}

/// The shaders do what they are for, whatever is in their slots.
pub open spec fn shaders_work(
    kernels: Kernels<ExactBuffer>,
    shaders: ExactShaders,
    capacity: nat,
) -> bool {
    &&& forall|kernel: Kernel, slots: Seq<Seq<u32>>, memory: Map<ExactBuffer, Seq<u32>>, x: nat|
        #[trigger]
        scores_over(kernels, shaders, capacity, kernel, slots, memory, x)
    &&& forall|
        kernel: Kernel,
        slots: Seq<Seq<u32>>,
        memory: Map<ExactBuffer, Seq<u32>>,
        x: nat,
        y: nat,
    |
        #[trigger]
        ranks_over(kernels, shaders, capacity, kernel, slots, memory, x, y)
}

/// The words start with these ones.
pub open spec fn starts_with(words: Seq<u32>, first: Seq<u32>) -> bool {
    first.len() <= words.len() && words.take(first.len() as int) == first
}

/// What the shader of a search is given: the candidates, the vectors and, where there is one, the
/// buffer that hides points.
pub open spec fn gives_search(
    slots: Seq<Seq<u32>>,
    memory: Map<ExactBuffer, Seq<u32>>,
    queries: Seq<Seq<VectorElementType>>,
    candidates: Seq<PointOffsetType>,
    capacity: nat,
    resident: Option<u64>,
    visibility: Option<u64>,
) -> bool {
    &&& slots.len() == (if visibility is Some {
        4nat
    } else {
        3nat
    })
    &&& starts_with(slots[0], candidates)
    &&& resident matches Some(id) ==> slots[0] == memory[ExactBuffer::Resident { id }]
    &&& queries.len() * capacity <= slots[1].len()
    &&& forall|q: int|
        0 <= q < queries.len() ==> #[trigger] vector_at(slots[1], q, capacity) == zero_filled(
            queries[q],
            capacity,
        )
    &&& visibility matches Some(id) ==> slots[3] == memory[ExactBuffer::Resident { id }]
}

/// A list with its first words replaced starts with them.
pub(crate) proof fn lemma_overwrite_first(list: Seq<u32>, words: Seq<u32>)
    requires
        words.len() <= list.len(),
    ensures
        overwrite(list, 0, words).len() == list.len(),
        starts_with(overwrite(list, 0, words), words),
{
    assert(overwrite(list, 0, words).take(words.len() as int) =~= words);
}

/// The vectors of several queries.
pub(crate) proof fn lemma_padded_queries(queries: Seq<Seq<VectorElementType>>, capacity: nat, q: int)
    requires
        0 <= q < queries.len(),
    ensures
        padded_queries(queries, capacity).len() == queries.len() * capacity,
        0 <= q * capacity <= (q + 1) * capacity <= queries.len() * capacity,
        vector_at(padded_queries(queries, capacity), q, capacity) == zero_filled(
            queries[q],
            capacity,
        ),
    decreases queries.len(),
{
    let rest = queries.drop_last();
    let n = rest.len() as int;
    let all = padded_queries(queries, capacity);
    let first = padded_queries(rest, capacity);
    if n > 0 {
        lemma_padded_queries(rest, capacity, 0);
    } else {
        assert(0 * capacity == 0) by (nonlinear_arith);
    }
    assert(first.len() == n * capacity);
    assert((n + 1) * capacity == n * capacity + capacity && 0 <= q * capacity <= (q + 1) * capacity
        && (q + 1) * capacity <= (n + 1) * capacity) by (nonlinear_arith)
        requires
            0 <= q <= n,
            0 <= capacity,
    ;
    if q < n {
        lemma_padded_queries(rest, capacity, q);
        assert((q + 1) * capacity <= n * capacity) by (nonlinear_arith)
            requires
                0 <= q < n,
                0 <= capacity,
        ;
        assert(vector_at(all, q, capacity) =~= vector_at(first, q, capacity));
    } else {
        assert(vector_at(all, q, capacity) =~= zero_filled(queries[q], capacity));
    }
}

/// Vectors at the start of more words.
pub(crate) proof fn lemma_vectors_at_start(words: Seq<u32>, first: Seq<u32>, q: int, capacity: nat)
    requires
        starts_with(words, first),
        0 <= q * capacity <= (q + 1) * capacity <= first.len(),
    ensures
        vector_at(words, q, capacity) == vector_at(first, q, capacity),
{
    assert(vector_at(words, q, capacity) =~= words.take(first.len() as int).subrange(
        q * capacity,
        (q + 1) * capacity,
    ));
}

/// The last part of the work of a search: the shader runs, and its output is copied.
proof fn lemma_exact_tail(
    kernels: Kernels<ExactBuffer>,
    start: Working<ExactBuffer>,
    work: Seq<ExactStep>,
    k: nat,
    kernel: Kernel,
    storage: Seq<ExactBuffer>,
    x: nat,
    y: nat,
    bytes: nat,
)
    requires
        work.len() == k + 4,
        work[k as int] == (SearchStep::Bind { kernel, storage }),
        work[(k + 1) as int] == (SearchStep::<ExactBuffer>::Dispatch { x, y }),
        work[(k + 2) as int] == (SearchStep::Barrier { buffers: seq![ExactBuffer::Scores] }),
        work[(k + 3) as int] == (SearchStep::Copy {
            source: ExactBuffer::Scores,
            target: ExactBuffer::ScoreStaging,
            bytes,
        }),
        storage.len() >= 3,
        storage[2] == ExactBuffer::Scores,
        is_only_place(storage, 2),
        !storage.contains(ExactBuffer::ScoreStaging),
        ({
            let state = worked_all(kernels, start, work, k);
            &&& !state.fault
            &&& forall|i: int|
                0 <= i < storage.len() ==> state.memory.contains_key(#[trigger] storage[i])
                    && !state.unsettled.contains(storage[i])
            &&& state.memory.contains_key(ExactBuffer::ScoreStaging)
            &&& words_of(bytes) <= state.memory[ExactBuffer::ScoreStaging].len()
            &&& words_of(bytes) <= state.memory[ExactBuffer::Scores].len()
        }),
    ensures
        ({
            let state = worked_all(kernels, start, work, k);
            let output = kernels(
                kernel,
                contents(state.memory, storage),
                state.memory,
                x,
                y,
            );
            let after = worked_all(kernels, start, work, work.len());
            output.len() == storage.len() && output[2].len()
                == state.memory[ExactBuffer::Scores].len() ==> {
                &&& !after.fault
                &&& words_of(bytes) <= after.memory[ExactBuffer::ScoreStaging].len()
                &&& after.memory[ExactBuffer::ScoreStaging].take(words_of(bytes) as int)
                    == output[2].take(words_of(bytes) as int)
            }
        }),
{
    let w0 = worked_all(kernels, start, work, k);
    let w1 = worked_all(kernels, start, work, k + 1);
    let w2 = worked_all(kernels, start, work, k + 2);
    let w3 = worked_all(kernels, start, work, k + 3);
    let w4 = worked_all(kernels, start, work, k + 4);
    lemma_worked_next(kernels, start, work, k);
    lemma_worked_next(kernels, start, work, k + 1);
    lemma_worked_next(kernels, start, work, k + 2);
    lemma_worked_next(kernels, start, work, k + 3);
    lemma_dispatch(kernels, w1, kernel, storage, x, y);
    let output = kernels(kernel, contents(w0.memory, storage), w0.memory, x, y);
    if output.len() == storage.len() && output[2].len() == w0.memory[ExactBuffer::Scores].len() {
        assert(w2.memory[storage[2]] == output[2]);
        let settled = seq![ExactBuffer::Scores];
        assert(settled[0] == ExactBuffer::Scores);
        assert(settled.contains(ExactBuffer::Scores));
        assert(!w3.unsettled.contains(ExactBuffer::Scores));
        assert(w2.memory.contains_key(ExactBuffer::Scores));
        assert(w2.memory.contains_key(ExactBuffer::ScoreStaging));
        assert(w2.memory[ExactBuffer::ScoreStaging] == w1.memory[ExactBuffer::ScoreStaging]);
        let n = words_of(bytes) as int;
        lemma_overwrite_first(w3.memory[ExactBuffer::ScoreStaging], output[2].take(n));
        assert(output[2].take(n).len() == n);
    }
}

/// The buffers that the shader of a search is bound to.
spec fn bound_buffers(resident: Option<u64>, visibility: Option<u64>) -> Seq<ExactBuffer> {
    let first = match resident {
        Some(id) => ExactBuffer::Resident { id },
        None => ExactBuffer::Candidates,
    };
    match visibility {
        Some(id) => seq![
            first,
            ExactBuffer::Query,
            ExactBuffer::Scores,
            ExactBuffer::Resident { id },
        ],
        None => seq![first, ExactBuffer::Query, ExactBuffer::Scores],
    }
}

/// The device holds what a search reads: the buffers of its context, and its resident buffers.
pub open spec fn ready_for_search(
    device: ExactDevice,
    context: GpuExactSearchContext,
    candidates: Seq<PointOffsetType>,
    resident: Option<u64>,
    visibility: Option<u64>,
) -> bool {
    &&& holds_exact_buffers(device, context)
    &&& resident matches Some(id) ==> {
        &&& device.memory.contains_key(ExactBuffer::Resident { id })
        &&& device.memory[ExactBuffer::Resident { id }] == candidates
    }
    &&& visibility matches Some(id) ==> device.memory.contains_key(ExactBuffer::Resident { id })
}

/// The first part of a search without a buffer that has the candidates.
proof fn lemma_upload_search(
    kernels: Kernels<ExactBuffer>,
    device: ExactDevice,
    context: GpuExactSearchContext,
    queries: Seq<Seq<VectorElementType>>,
    candidates: Seq<PointOffsetType>,
    top: nat,
    visibility: Option<u64>,
) -> (start: Working<ExactBuffer>)
    requires
        ready_for_search(device, context, candidates, None, visibility),
        candidates.len() <= context.candidate_capacity,
        queries.len() * context.storage.vector_capacity <= 4 * context.storage.vector_capacity,
    ensures
        ({
            let capacity = context.storage.vector_capacity as nat;
            let all = submission_steps(queries, candidates, capacity, top, None, visibility);
            let work = all.subrange(2, 9);
            let after = performed_all(kernels, device, all, all.len());
            let done = worked_all(kernels, start, work, work.len());
            let state = worked_all(kernels, start, work, 3);
            &&& all.len() == 10
            &&& after.memory == done.memory
            &&& after.fault == done.fault
            &&& !state.fault
            &&& starts_with(state.memory[ExactBuffer::Candidates], candidates)
            &&& starts_with(
                state.memory[ExactBuffer::Query],
                padded_queries(queries, capacity),
            )
            &&& forall|buffer: ExactBuffer| #[trigger]
                device.memory.contains_key(buffer) ==> state.memory.contains_key(buffer)
                    && state.memory[buffer].len() == device.memory[buffer].len()
            &&& forall|id: u64| #[trigger]
                state.memory[ExactBuffer::Resident { id }]
                    == device.memory[ExactBuffer::Resident { id }]
            &&& state.unsettled == Set::<ExactBuffer>::empty()
        }),
{
    let capacity = context.storage.vector_capacity as nat;
    let all = submission_steps(queries, candidates, capacity, top, None, visibility);
    let words = padded_queries(queries, capacity);
    if queries.len() > 0 {
        lemma_padded_queries(queries, capacity, 0);
    } else {
        assert(0 * capacity == 0) by (nonlinear_arith);
    }
    let d1 = performed_all(kernels, device, all, 1);
    let d2 = performed_all(kernels, device, all, 2);
    let d9 = performed_all(kernels, device, all, 9);
    assert(all.len() == 10);
    assert(all[0] == (SearchStep::Upload {
        buffer: ExactBuffer::CandidateStaging,
        words: candidates,
    }));
    assert(all[1] == (SearchStep::Upload { buffer: ExactBuffer::QueryStaging, words }));
    assert(performed_all(kernels, device, all, 0) == device);
    lemma_performed_next(kernels, device, all, 0);
    lemma_performed_next(kernels, device, all, 1);
    lemma_overwrite_first(device.memory[ExactBuffer::CandidateStaging], candidates);
    lemma_overwrite_first(device.memory[ExactBuffer::QueryStaging], words);
    assert(!d2.fault && d2.recorded == device.recorded);
    assert forall|i: int| 2 <= i < 9 implies is_recorded(#[trigger] all[i]) by {}
    lemma_recorded(kernels, device, all, 2, 9);
    let work = all.subrange(2, 9);
    assert(d2.recorded + work =~= work);
    lemma_performed_next(kernels, device, all, 9);
    assert(all[9] == SearchStep::<ExactBuffer>::Run);
    lemma_run(kernels, d9);
    let start = Working {
        memory: d2.memory,
        unsettled: Set::empty(),
        bound: None,
        fault: false,
    };
    let w1 = worked_all(kernels, start, work, 1);
    let w2 = worked_all(kernels, start, work, 2);
    let w3 = worked_all(kernels, start, work, 3);
    assert(worked_all(kernels, start, work, 0) == start);
    lemma_worked_next(kernels, start, work, 0);
    lemma_worked_next(kernels, start, work, 1);
    lemma_worked_next(kernels, start, work, 2);
    assert(work[0] == (SearchStep::Copy {
        source: ExactBuffer::CandidateStaging,
        target: ExactBuffer::Candidates,
        bytes: candidates.len() * WORD_SIZE as nat,
    }));
    assert(work[1] == (SearchStep::Copy {
        source: ExactBuffer::QueryStaging,
        target: ExactBuffer::Query,
        bytes: words.len() * WORD_SIZE as nat,
    }));
    let settled = seq![ExactBuffer::Query, ExactBuffer::Candidates];
    assert(work[2] == (SearchStep::Barrier { buffers: settled }));
    assert(words_of(candidates.len() * WORD_SIZE as nat) == candidates.len());
    assert(words_of(words.len() * WORD_SIZE as nat) == words.len());
    lemma_overwrite_first(device.memory[ExactBuffer::Candidates], candidates);
    lemma_overwrite_first(device.memory[ExactBuffer::Query], words);
    assert(!w2.fault);
    assert(settled[0] == ExactBuffer::Query && settled[1] == ExactBuffer::Candidates);
    assert(settled.contains(ExactBuffer::Query) && settled.contains(ExactBuffer::Candidates));
    assert(w3.unsettled =~= Set::<ExactBuffer>::empty());
    start
}

/// The first part of a search that reads its candidates from a buffer.
proof fn lemma_resident_search(
    kernels: Kernels<ExactBuffer>,
    device: ExactDevice,
    context: GpuExactSearchContext,
    queries: Seq<Seq<VectorElementType>>,
    candidates: Seq<PointOffsetType>,
    top: nat,
    id: u64,
    visibility: Option<u64>,
) -> (start: Working<ExactBuffer>)
    requires
        ready_for_search(device, context, candidates, Some(id), visibility),
        queries.len() * context.storage.vector_capacity <= 4 * context.storage.vector_capacity,
    ensures
        ({
            let capacity = context.storage.vector_capacity as nat;
            let all = submission_steps(queries, candidates, capacity, top, Some(id), visibility);
            let work = all.subrange(1, 7);
            let after = performed_all(kernels, device, all, all.len());
            let done = worked_all(kernels, start, work, work.len());
            let state = worked_all(kernels, start, work, 2);
            &&& all.len() == 8
            &&& after.memory == done.memory
            &&& after.fault == done.fault
            &&& !state.fault
            &&& starts_with(
                state.memory[ExactBuffer::Query],
                padded_queries(queries, capacity),
            )
            &&& forall|buffer: ExactBuffer| #[trigger]
                device.memory.contains_key(buffer) ==> state.memory.contains_key(buffer)
                    && state.memory[buffer].len() == device.memory[buffer].len()
            &&& forall|id: u64| #[trigger]
                state.memory[ExactBuffer::Resident { id }]
                    == device.memory[ExactBuffer::Resident { id }]
            &&& state.unsettled == Set::<ExactBuffer>::empty()
        }),
{
    let capacity = context.storage.vector_capacity as nat;
    let all = submission_steps(queries, candidates, capacity, top, Some(id), visibility);
    let words = padded_queries(queries, capacity);
    if queries.len() > 0 {
        lemma_padded_queries(queries, capacity, 0);
    } else {
        assert(0 * capacity == 0) by (nonlinear_arith);
    }
    let d1 = performed_all(kernels, device, all, 1);
    let d7 = performed_all(kernels, device, all, 7);
    assert(all.len() == 8);
    assert(all[0] == (SearchStep::Upload { buffer: ExactBuffer::QueryStaging, words }));
    assert(performed_all(kernels, device, all, 0) == device);
    lemma_performed_next(kernels, device, all, 0);
    lemma_overwrite_first(device.memory[ExactBuffer::QueryStaging], words);
    assert(!d1.fault && d1.recorded == device.recorded);
    assert forall|i: int| 1 <= i < 7 implies is_recorded(#[trigger] all[i]) by {}
    lemma_recorded(kernels, device, all, 1, 7);
    let work = all.subrange(1, 7);
    assert(d1.recorded + work =~= work);
    lemma_performed_next(kernels, device, all, 7);
    assert(all[7] == SearchStep::<ExactBuffer>::Run);
    lemma_run(kernels, d7);
    let start = Working {
        memory: d1.memory,
        unsettled: Set::empty(),
        bound: None,
        fault: false,
    };
    let w1 = worked_all(kernels, start, work, 1);
    let w2 = worked_all(kernels, start, work, 2);
    assert(worked_all(kernels, start, work, 0) == start);
    lemma_worked_next(kernels, start, work, 0);
    lemma_worked_next(kernels, start, work, 1);
    assert(work[0] == (SearchStep::Copy {
        source: ExactBuffer::QueryStaging,
        target: ExactBuffer::Query,
        bytes: words.len() * WORD_SIZE as nat,
    }));
    let settled = seq![ExactBuffer::Query];
    assert(work[1] == (SearchStep::Barrier { buffers: settled }));
    assert(words_of(words.len() * WORD_SIZE as nat) == words.len());
    lemma_overwrite_first(device.memory[ExactBuffer::Query], words);
    assert(!w1.fault);
    assert(settled[0] == ExactBuffer::Query);
    assert(settled.contains(ExactBuffer::Query));
    assert(w2.unsettled =~= Set::<ExactBuffer>::empty());
    start
}

/// The shader of a search is given its candidates, its vectors and what hides points, and what it
/// leaves in the third slot is what comes back.
pub proof fn lemma_search_reaches_shader(
    kernels: Kernels<ExactBuffer>,
    device: ExactDevice,
    context: GpuExactSearchContext,
    queries: Seq<Seq<VectorElementType>>,
    candidates: Seq<PointOffsetType>,
    top: nat,
    resident: Option<u64>,
    visibility: Option<u64>,
) -> (r: (Seq<Seq<u32>>, Map<ExactBuffer, Seq<u32>>))
    requires
        ready_for_search(device, context, candidates, resident, visibility),
        batch_fault(context, queries, candidates.len(), top, resident is Some) is None,
        candidates.len() > 0,
        top > 0,
    ensures
        gives_search(
            r.0,
            device.memory,
            queries,
            candidates,
            context.storage.vector_capacity as nat,
            resident,
            visibility,
        ),
        r.0[2].len() >= context.candidate_capacity,
        r.0[2].len() >= 8 * (ceil_div(
            context.candidate_capacity as int,
            BLOCK_TOPK_TILE_CANDIDATES as int,
        ) * BLOCK_TOPK_LIMIT),
        ({
            let block_topk = uses_block_topk(candidates.len(), top, resident is Some);
            let all = submission_steps(
                queries,
                candidates,
                context.storage.vector_capacity as nat,
                top,
                resident,
                visibility,
            );
            let after = performed_all(kernels, device, all, all.len());
            let output = kernels(
                exact_kernel(visibility is Some, block_topk),
                r.0,
                r.1,
                if block_topk {
                    tile_count(candidates.len())
                } else {
                    candidates.len()
                },
                queries.len(),
            );
            let words = if block_topk {
                2 * (queries.len() * (tile_count(candidates.len()) * BLOCK_TOPK_LIMIT))
            } else {
                candidates.len() as int
            };
            output.len() == r.0.len() && output[2].len() == r.0[2].len() ==> {
                &&& !after.fault
                &&& words <= after.memory[ExactBuffer::ScoreStaging].len()
                &&& after.memory[ExactBuffer::ScoreStaging].take(words) == output[2].take(words)
            }
        }),
{
    let capacity = context.storage.vector_capacity as nat;
    let block_topk = uses_block_topk(candidates.len(), top, resident is Some);
    let n = candidates.len() as int;
    let count = queries.len() as int;
    let all = submission_steps(queries, candidates, capacity, top, resident, visibility);
    let storage = bound_buffers(resident, visibility);
    let kernel = exact_kernel(visibility is Some, block_topk);
    let x = if block_topk {
        tile_count(candidates.len())
    } else {
        candidates.len()
    };
    let output_count = output_per_query(candidates.len(), block_topk) * queries.len();
    let bytes = output_count * output_size(block_topk);
    assert(count * capacity <= 4 * capacity) by (nonlinear_arith)
        requires
            0 <= count <= 4,
            0 <= capacity,
    ;
    lemma_ceil_div(n, BLOCK_TOPK_TILE_CANDIDATES as int);
    lemma_ceil_div(context.candidate_capacity as int, BLOCK_TOPK_TILE_CANDIDATES as int);
    let tiles = tile_count(candidates.len()) as int;
    let most = ceil_div(context.candidate_capacity as int, BLOCK_TOPK_TILE_CANDIDATES as int);
    assert(tiles <= most);
    let places = tiles * BLOCK_TOPK_LIMIT;
    assert(places * count == count * places && count * places <= 4 * places && places <= most
        * BLOCK_TOPK_LIMIT) by (nonlinear_arith)
        requires
            0 <= count <= 4,
            0 <= tiles <= most,
            places == tiles * BLOCK_TOPK_LIMIT,
    ;
    if block_topk {
        assert(output_per_query(candidates.len(), true) == places);
        assert(output_count == places * count);
        assert(bytes == output_count * 8);
        assert(output_count == count * places);
        assert((output_count * 8) / 4 == 2 * output_count) by (nonlinear_arith);
        assert(words_of(bytes) == bytes / 4);
        assert(words_of(bytes) == 2 * output_count);
    } else {
        assert(count == 1);
        assert(output_count == n);
        assert(words_of(bytes) == n);
    }
    let (start, work, k) = if resident is Some {
        let start = lemma_resident_search(
            kernels,
            device,
            context,
            queries,
            candidates,
            top,
            resident->0,
            visibility,
        );
        (start, all.subrange(1, 7), 2nat)
    } else {
        let start = lemma_upload_search(
            kernels,
            device,
            context,
            queries,
            candidates,
            top,
            visibility,
        );
        (start, all.subrange(2, 9), 3nat)
    };
    let state = worked_all(kernels, start, work, k);
    assert(work.len() == k + 4);
    assert(work[k as int] == (SearchStep::Bind { kernel, storage }));
    assert(work[(k + 1) as int] == (SearchStep::<ExactBuffer>::Dispatch { x, y: queries.len() }));
    assert(work[(k + 2) as int] == (SearchStep::Barrier { buffers: seq![ExactBuffer::Scores] }));
    assert(work[(k + 3) as int] == (SearchStep::Copy {
        source: ExactBuffer::Scores,
        target: ExactBuffer::ScoreStaging,
        bytes,
    }));
    assert(is_only_place(storage, 2));
    assert(!storage.contains(ExactBuffer::ScoreStaging));
    assert(device.memory.contains_key(ExactBuffer::Candidates));
    assert(device.memory.contains_key(ExactBuffer::Query));
    assert(device.memory.contains_key(ExactBuffer::Scores));
    assert(device.memory.contains_key(ExactBuffer::ScoreStaging));
    assert forall|i: int| 0 <= i < storage.len() implies state.memory.contains_key(
        #[trigger] storage[i],
    ) && !state.unsettled.contains(storage[i]) by {
        assert(device.memory.contains_key(storage[i]));
    }
    lemma_exact_tail(kernels, start, work, k, kernel, storage, x, queries.len(), bytes);
    let slots = contents(state.memory, storage);
    assert(slots[0] == state.memory[storage[0]]);
    assert(slots[1] == state.memory[storage[1]]);
    assert(slots[2] == state.memory[storage[2]]);
    let words = padded_queries(queries, capacity);
    if resident is Some {
        assert(slots[0] == candidates);
        assert(candidates.take(candidates.len() as int) =~= candidates);
    }
    assert forall|q: int| 0 <= q < queries.len() implies #[trigger] vector_at(
        slots[1],
        q,
        capacity,
    ) == zero_filled(queries[q], capacity) by {
        lemma_padded_queries(queries, capacity, q);
        lemma_vectors_at_start(slots[1], words, q, capacity);
    }
    assert(queries.len() * capacity <= slots[1].len()) by {
        lemma_padded_queries(queries, capacity, 0);
    }
    (slots, state.memory)
}

/// The words of the download buffer are read as the output of a search.
pub open spec fn read_as(shaders: ExactShaders, words: Seq<u32>, output: ExactOutput) -> bool {
    match output {
        ExactOutput::Blocks(points) => 2 * points@.len() <= words.len() ==> points@
            == shaders.points_in(words.take((2 * points@.len()) as int)),
        ExactOutput::Scores(scores) => forall|i: int|
            0 <= i < scores@.len() && i < words.len() ==> #[trigger] scores@[i] == (
            shaders.read_score)(words[i]),
    }
}

/// Submissions are performed on a device with the buffers of the context and the resident buffers,
/// and output is read from the start of the download buffer. Nothing is known of what comes back
/// when a command goes wrong.
pub open spec fn performs_submissions<R: Fn(&ExactSubmission) -> OperationResult<ExactReply>>(
    run: &R,
    context: GpuExactSearchContext,
    kernels: Kernels<ExactBuffer>,
    shaders: ExactShaders,
    buffers: spec_fn(u64) -> Seq<u32>,
) -> bool {
    forall|submission: &ExactSubmission, reply: ExactReply| #[trigger]
        run.ensures((submission,), Ok(reply)) ==> exists|device: ExactDevice|
            {
                let all = steps(submission.commands@);
                let after = performed_all(kernels, device, all, all.len());
                &&& #[trigger] holds_exact_buffers(device, context)
                &&& holds_resident_buffers(device, buffers)
                &&& !after.fault ==> read_as(
                    shaders,
                    after.memory[ExactBuffer::ScoreStaging],
                    reply.output,
                )
            }
}

/// The device has the buffers that stay on it.
pub open spec fn holds_resident_buffers(
    device: ExactDevice,
    buffers: spec_fn(u64) -> Seq<u32>,
) -> bool {
    forall|id: u64| #[trigger]
        device.memory.contains_key(ExactBuffer::Resident { id })
            && device.memory[ExactBuffer::Resident { id }] == buffers(id)
}

/// The scores that shaders give to vectors with zeros behind them.
pub open spec fn shader_model(
    shaders: ExactShaders,
    capacity: nat,
    buffers: spec_fn(u64) -> Seq<u32>,
) -> DeviceModel {
    DeviceModel {
        buffers,
        score: |query: Seq<VectorElementType>, point_id: PointOffsetType|
            (shaders.score)(zero_filled(query, capacity), point_id),
        hidden_score: shaders.hidden_score,
    }
}

/// The points of one vector among those of several.
proof fn lemma_points_of_vector(
    shaders: ExactShaders,
    words: Seq<u32>,
    places: int,
    count: int,
    q: int,
)
    requires
        0 <= places,
        0 <= q < count,
        words.len() == 2 * (count * places),
    ensures
        0 <= q * places <= (q + 1) * places <= count * places,
        shaders.points_in(words).subrange(q * places, (q + 1) * places) == shaders.points_in(
            words.subrange(2 * (q * places), 2 * ((q + 1) * places)),
        ),
{
    assert(0 <= q * places <= (q + 1) * places <= count * places) by (nonlinear_arith)
        requires
            0 <= places,
            0 <= q < count,
    ;
    assert(shaders.points_in(words).subrange(q * places, (q + 1) * places) =~= shaders.points_in(
        words.subrange(2 * (q * places), 2 * ((q + 1) * places)),
    ));
}

/// Where submissions are performed on a device whose shaders do what they are for, every search that
/// a context admits scores its own candidates for its own vectors and leaves out what its buffer
/// hides.
pub proof fn lemma_device_follows_model<R: Fn(&ExactSubmission) -> OperationResult<ExactReply>>(
    run: &R,
    context: GpuExactSearchContext,
    kernels: Kernels<ExactBuffer>,
    shaders: ExactShaders,
    buffers: spec_fn(u64) -> Seq<u32>,
)
    requires
        can_run(run),
        performs_submissions(run, context, kernels, shaders, buffers),
        shaders_work(kernels, shaders, context.storage.vector_capacity as nat),
    ensures
        follows_model(
            run,
            shader_model(shaders, context.storage.vector_capacity as nat, buffers),
            context,
        ),
{
    let capacity = context.storage.vector_capacity as nat;
    let model = shader_model(shaders, capacity, buffers);
    assert forall|
        submission: &ExactSubmission,
        reply: ExactReply,
        queries: Seq<Seq<VectorElementType>>,
        candidates: Seq<PointOffsetType>,
        top: nat,
        resident: Option<u64>,
        visibility: Option<u64>,
        q: int,
    |
        #![trigger
            run.ensures((submission,), Ok(reply)),
            is_submission_of(
                *submission,
                queries,
                candidates,
                capacity,
                top,
                resident,
                visibility,
            ),
            queries[q]]
        {
            &&& run.ensures((submission,), Ok(reply))
            &&& is_submission_of(
                *submission,
                queries,
                candidates,
                capacity,
                top,
                resident,
                visibility,
            )
            &&& batch_fault(context, queries, candidates.len(), top, resident is Some) is None
            &&& candidates.len() > 0
            &&& top > 0
            &&& resident matches Some(id) ==> (model.buffers)(id) == candidates
            &&& 0 <= q < queries.len()
        } implies output_follows(
        model,
        reply.output,
        queries[q],
        candidates,
        model.hidden(visibility),
        submission.output_count_per_query as nat,
        q,
    ) by {
        lemma_submission_follows_model(
            run,
            context,
            kernels,
            shaders,
            buffers,
            submission,
            reply,
            queries,
            candidates,
            top,
            resident,
            visibility,
            q,
        );
    }
}

/// The same for one search.
proof fn lemma_submission_follows_model<
    R: Fn(&ExactSubmission) -> OperationResult<ExactReply>,
>(
    run: &R,
    context: GpuExactSearchContext,
    kernels: Kernels<ExactBuffer>,
    shaders: ExactShaders,
    buffers: spec_fn(u64) -> Seq<u32>,
    submission: &ExactSubmission,
    reply: ExactReply,
    queries: Seq<Seq<VectorElementType>>,
    candidates: Seq<PointOffsetType>,
    top: nat,
    resident: Option<u64>,
    visibility: Option<u64>,
    q: int,
)
    requires
        can_run(run),
        performs_submissions(run, context, kernels, shaders, buffers),
        shaders_work(kernels, shaders, context.storage.vector_capacity as nat),
        run.ensures((submission,), Ok(reply)),
        is_submission_of(
            *submission,
            queries,
            candidates,
            context.storage.vector_capacity as nat,
            top,
            resident,
            visibility,
        ),
        batch_fault(context, queries, candidates.len(), top, resident is Some) is None,
        candidates.len() > 0,
        top > 0,
        resident matches Some(id) ==> buffers(id) == candidates,
        0 <= q < queries.len(),
    ensures
        ({
            let model = shader_model(
                shaders,
                context.storage.vector_capacity as nat,
                buffers,
            );
            output_follows(
                model,
                reply.output,
                queries[q],
                candidates,
                model.hidden(visibility),
                submission.output_count_per_query as nat,
                q,
            )
        }),
{
    let capacity = context.storage.vector_capacity as nat;
    let model = shader_model(shaders, capacity, buffers);
    let all = steps(submission.commands@);
    let device = choose|device: ExactDevice|
        {
            let after = performed_all(kernels, device, all, all.len());
            &&& #[trigger] holds_exact_buffers(device, context)
            &&& holds_resident_buffers(device, buffers)
            &&& !after.fault ==> read_as(
                shaders,
                after.memory[ExactBuffer::ScoreStaging],
                reply.output,
            )
        };
    if resident is Some {
        assert(device.memory.contains_key(ExactBuffer::Resident { id: resident->0 }));
    }
    if visibility is Some {
        assert(device.memory.contains_key(ExactBuffer::Resident { id: visibility->0 }));
    }
    let (slots, memory) = lemma_search_reaches_shader(
        kernels,
        device,
        context,
        queries,
        candidates,
        top,
        resident,
        visibility,
    );
    let after = performed_all(kernels, device, all, all.len());
    let words = after.memory[ExactBuffer::ScoreStaging];
    let block_topk = uses_block_topk(candidates.len(), top, resident is Some);
    let kernel = exact_kernel(visibility is Some, block_topk);
    let hidden = model.hidden(visibility);
    assert(answers(*submission, reply.output));
    assert(left_out(slots) =~= hidden);
    let vector = vector_at(slots[1], q, capacity);
    assert(vector == zero_filled(queries[q], capacity));
    if block_topk {
        let tiles = tile_count(candidates.len());
        let places = (tiles * BLOCK_TOPK_LIMIT) as int;
        let count = queries.len() as int;
        assert(slots[0] == candidates);
        lemma_ceil_div(candidates.len() as int, BLOCK_TOPK_TILE_CANDIDATES as int);
        lemma_ceil_div(context.candidate_capacity as int, BLOCK_TOPK_TILE_CANDIDATES as int);
        let most = ceil_div(context.candidate_capacity as int, BLOCK_TOPK_TILE_CANDIDATES as int);
        assert(0 <= count * places <= 4 * (most * BLOCK_TOPK_LIMIT)) by (nonlinear_arith)
            requires
                0 <= count <= 4,
                0 <= tiles <= most,
                places == tiles * BLOCK_TOPK_LIMIT,
        ;
        let output = kernels(kernel, slots, memory, tiles, queries.len());
        assert(ranks_over(
            kernels,
            shaders,
            capacity,
            kernel,
            slots,
            memory,
            tiles,
            queries.len(),
        ));
        let total = 2 * (count * places);
        let points = reply.output->Blocks_0@;
        assert(places * count == count * places) by (nonlinear_arith);
        assert(points.len() == count * places);
        assert(points == shaders.points_in(words.take(total)));
        lemma_points_of_vector(shaders, words.take(total), places, count, q);
        assert(words.take(total).subrange(2 * (q * places), 2 * ((q + 1) * places))
            =~= output[2].subrange(2 * (q * places), 2 * ((q + 1) * places)));
        assert(holds_shown_tops(
            shaders.points_in(output[2].subrange(2 * (q * places), 2 * ((q + 1) * places))),
            shaders.scored(vector, slots[0]),
            left_out(slots),
        ));
        assert(shaders.scored(vector, slots[0]) =~= model.scored(queries[q], candidates));
        assert(submission.output_count_per_query == places);
    } else {
        let n = candidates.len();
        assert(queries.len() == 1);
        assert(1 * capacity == capacity) by (nonlinear_arith);
        let output = kernels(kernel, slots, memory, n, 1);
        assert(scores_over(kernels, shaders, capacity, kernel, slots, memory, n));
        let scores = reply.output->Scores_0@;
        assert forall|i: int| 0 <= i < n implies #[trigger] scores[i] == (if hidden(candidates[i]) {
            model.hidden_score
        } else {
            (model.score)(queries[q], candidates[i])
        }) by {
            assert(words.take(n as int)[i] == output[2].take(n as int)[i]);
            assert(slots[0].take(n as int)[i] == candidates[i]);
            assert(scores[i] == (shaders.read_score)(words[i]));
            assert((shaders.read_score)(output[2][i]) == (shaders.read_score)(words[i]));
        }
    }
}

/// The commands that set a context up make buffers with room for every search that it admits.
pub proof fn lemma_context_buffers_fit(
    kernels: Kernels<ExactBuffer>,
    device: ExactDevice,
    context: GpuExactSearchContext,
)
    requires
        is_idle(device),
        context.wf(),
    ensures
        ({
            let all = context_buffers(context.storage, context.candidate_capacity as nat);
            holds_exact_buffers(performed_all(kernels, device, all, all.len()), context)
        }),
        ({
            let all = context_buffers(context.storage, context.candidate_capacity as nat);
            has_room(
                performed_all(kernels, device, all, all.len()),
                ExactBuffer::VisibilityStaging,
                ceil_div(context.storage.num_vectors as int, 32),
            )
        }),
{
    let all = context_buffers(context.storage, context.candidate_capacity as nat);
    let candidates = context.candidate_capacity as int;
    let tiles = ceil_div(candidates, BLOCK_TOPK_TILE_CANDIDATES as int);
    lemma_ceil_div(candidates, BLOCK_TOPK_TILE_CANDIDATES as int);
    lemma_ceil_div(context.storage.num_vectors as int, 32);
    assert(all.len() == 7);
    assert(all[0]->Create_buffer == ExactBuffer::Candidates);
    assert(all[1]->Create_buffer == ExactBuffer::CandidateStaging);
    assert(all[2]->Create_buffer == ExactBuffer::VisibilityStaging);
    assert(all[3]->Create_buffer == ExactBuffer::Query);
    assert(all[4]->Create_buffer == ExactBuffer::QueryStaging);
    assert(all[5]->Create_buffer == ExactBuffer::Scores);
    assert(all[6]->Create_buffer == ExactBuffer::ScoreStaging);
    assert(only_creates(all));
    lemma_created(kernels, device, all, 7);
    assert(words_of(context.candidate_capacity as nat * WORD_SIZE as nat) == candidates);
    let bits = visibility_words(context.storage.num_vectors as nat);
    assert(words_of(bits * WORD_SIZE as nat) == bits);
    let queries = query_bytes(context.storage.vector_capacity as nat);
    assert(queries == context.storage.vector_capacity * 16);
    assert(words_of(queries) == queries / 4);
    let scores = score_bytes(context.candidate_capacity as nat);
    let places = 4 * (tiles * BLOCK_TOPK_LIMIT);
    assert(tiles * BLOCK_TOPK_LIMIT * SCORED_POINT_SIZE * GPU_EXACT_SUBMISSION_BATCH_LIMIT == 8
        * places) by (nonlinear_arith)
        requires
            places == 4 * (tiles * BLOCK_TOPK_LIMIT),
            SCORED_POINT_SIZE == 8,
            GPU_EXACT_SUBMISSION_BATCH_LIMIT == 4,
    ;
    assert(scores >= 4 * candidates && scores >= 8 * places);
    assert(words_of(scores) == scores / 4);
}

/// A buffer that stays on the device holds exactly the words that were put into it.
pub proof fn lemma_resident_buffer_holds_words(
    kernels: Kernels<ExactBuffer>,
    device: ExactDevice,
    label: Seq<char>,
    staging: ExactBuffer,
    words: Seq<u32>,
)
    requires
        is_idle(device),
        staging != ExactBuffer::NewResident,
        has_room(device, staging, words.len() as int),
    ensures
        ({
            let all = resident_steps(label, staging, words);
            let after = performed_all(kernels, device, all, all.len());
            &&& is_idle(after)
            &&& after.memory[ExactBuffer::NewResident] == words
            &&& forall|buffer: ExactBuffer|
                buffer != ExactBuffer::NewResident && buffer != staging
                    ==> #[trigger] after.memory[buffer] == device.memory[buffer]
        }),
{
    let all = resident_steps(label, staging, words);
    assert(all.len() == 4);
    let d1 = performed_all(kernels, device, all, 1);
    let d2 = performed_all(kernels, device, all, 2);
    let d3 = performed_all(kernels, device, all, 3);
    assert(performed_all(kernels, device, all, 0) == device);
    lemma_performed_next(kernels, device, all, 0);
    lemma_performed_next(kernels, device, all, 1);
    lemma_performed_next(kernels, device, all, 2);
    lemma_performed_next(kernels, device, all, 3);
    assert(words_of(words.len() * WORD_SIZE as nat) == words.len());
    lemma_overwrite_first(device.memory[staging], words);
    let start = Working {
        memory: d3.memory,
        unsettled: Set::empty(),
        bound: None,
        fault: false,
    };
    assert(d3.recorded =~= seq![all[2]]);
    lemma_run(kernels, d3);
    let work = d3.recorded;
    assert(worked_all(kernels, start, work, 0) == start);
    lemma_worked_next(kernels, start, work, 0);
    assert(worked_all(kernels, start, work, 1) == worked(kernels, start, all[2]));
    assert(overwrite(d3.memory[ExactBuffer::NewResident], 0, words) =~= words);
}

} // verus!
