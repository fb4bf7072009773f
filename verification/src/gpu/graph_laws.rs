//! What a search over a graph on a device sees and finds.

use vstd::prelude::*;

use crate::arith::{ceil_div, lemma_ceil_div};
use crate::bits::packed_bit32;
use crate::error::OperationResult;
use crate::gpu::block_topk::present;
use crate::gpu::commands::WORD_SIZE;
use crate::gpu::exact_context::SCORED_POINT_SIZE;
use crate::gpu::filtered_graph_search::{
    graph_buffers, graph_search_outcome, graph_search_steps, graph_searched, is_deleted,
    is_graph_search, is_selected, marks_deleted, point_words, selects, GraphBuffer, GraphCommand,
    GraphContextView, REQUEST_WORDS,
};
use crate::gpu::search_commands::{steps, Kernel, SearchStep};
use crate::gpu::search_device::{
    contents, has_buffer, is_idle, is_only_place, is_recorded, lemma_copy_whole, lemma_created, lemma_dispatch,
    lemma_performed_next, lemma_recorded, lemma_run, lemma_upload_whole, lemma_worked_next,
    only_creates, performed, performed_all, words_of, worked_all, Kernels, SearchDevice, Working,
};
use crate::storage::VectorElementType;
use crate::top_k::first_k;
use crate::types::{PointOffsetType, ScoredPointOffset};

verus! {

/// Device of a graph search.
pub type GraphDevice = SearchDevice<GraphBuffer>;

/// The device has the buffers of a graph search, and they have the sizes that it needs.
pub open spec fn holds_graph_buffers(device: GraphDevice, context: GraphContextView) -> bool {
    let vector = context.storage.vector_capacity as nat;
    let bits = ceil_div(context.point_count as int, 32) as nat;
    &&& is_idle(device)
    &&& has_buffer(device, GraphBuffer::Query, vector)
    &&& has_buffer(device, GraphBuffer::QueryStaging, vector)
    &&& has_buffer(device, GraphBuffer::Results, 2 * context.ef)
    &&& has_buffer(device, GraphBuffer::ResultStaging, 2 * context.ef)
    &&& has_buffer(device, GraphBuffer::Predicate, bits)
    &&& has_buffer(device, GraphBuffer::PredicateStaging, bits)
    &&& has_buffer(device, GraphBuffer::Deleted, bits)
    &&& has_buffer(device, GraphBuffer::DeletedStaging, bits)
    &&& has_buffer(device, GraphBuffer::Request, 4)
    &&& has_buffer(device, GraphBuffer::RequestStaging, 4)
    &&& device.memory.contains_key(GraphBuffer::Visited)
}

/// A walk over the lowest layer: the points that it finds for the elements of a vector from an
/// entry point among the points that it may see, best first.
pub type DeviceWalk = spec_fn(Seq<u32>, u32, spec_fn(int) -> bool) -> Seq<ScoredPointOffset>;

/// How scored points are read from words.
pub type ReadPoints = spec_fn(Seq<u32>) -> Seq<ScoredPointOffset>;

/// The points whose bit is set in the first words and not in the others.
pub open spec fn sees(shown: Seq<u32>, hidden: Seq<u32>) -> spec_fn(int) -> bool {
    |p: int| packed_bit32(shown, p) && !packed_bit32(hidden, p)
}

/// The shader for graphs walks, for these contents of its slots. It reads the vector in the first
/// slot, the bits of the points that it may see in the third, the bits of the points that it may not
/// see in the fourth, and in the fifth the entry point and how many points are wanted of how many.
/// When no point is marked as visited, it leaves the first points of the walk in the second slot.
pub open spec fn walks_over(
    kernels: Kernels<GraphBuffer>,
    context: GraphContextView,
    walk: DeviceWalk,
    read_points: ReadPoints,
    slots: Seq<Seq<u32>>,
    memory: Map<GraphBuffer, Seq<u32>>,
    entry: u32,
    top: u32,
) -> bool {
    let output = kernels(Kernel::FilteredGraph, slots, memory, 1, 1);
    is_graph_request(context, slots, memory, entry, top) ==> {
        &&& output.len() == 5
        &&& output[1].len() == slots[1].len()
        &&& present(read_points(output[1].take(2 * top))) == first_k(
            walk(slots[0], entry, sees(slots[2], slots[3])),
            top as nat,
        )
    }
}

/// The slots hold a request that the shader for graphs can serve, and no point is marked as visited.
pub open spec fn is_graph_request(
    context: GraphContextView,
    slots: Seq<Seq<u32>>,
    memory: Map<GraphBuffer, Seq<u32>>,
    entry: u32,
    top: u32,
) -> bool {
    &&& slots.len() == 5
    &&& slots[4] == seq![entry, top, context.point_count as u32, 0u32]
    &&& 2 * top <= slots[1].len()
    &&& forall|i: int|
        0 <= i < memory[GraphBuffer::Visited].len()
            ==> #[trigger] memory[GraphBuffer::Visited][i] == 0
}

/// The shader for graphs walks, whatever is in its slots.
pub open spec fn kernel_walks(
    kernels: Kernels<GraphBuffer>,
    context: GraphContextView,
    walk: DeviceWalk,
    read_points: ReadPoints,
) -> bool {
    forall|slots: Seq<Seq<u32>>, memory: Map<GraphBuffer, Seq<u32>>, entry: u32, top: u32|
        #[trigger]
        walks_over(kernels, context, walk, read_points, slots, memory, entry, top)
}

/// Commands are performed on a device with the buffers of a graph search, and scored points are
/// read from the start of the download buffer. Nothing is known of what comes back when a command
/// goes wrong.
pub open spec fn performs_graph_commands<
    R: Fn(Vec<GraphCommand>, usize) -> OperationResult<Vec<ScoredPointOffset>>,
>(
    run: &R,
    context: GraphContextView,
    kernels: Kernels<GraphBuffer>,
    read_points: ReadPoints,
) -> bool {
    forall|commands: Vec<GraphCommand>, top: usize, points: Vec<ScoredPointOffset>| #[trigger]
        run.ensures((commands, top), Ok(points)) ==> exists|device: GraphDevice|
            {
                let after = performed_all(
                    kernels,
                    device,
                    steps(commands@),
                    steps(commands@).len(),
                );
                &&& #[trigger] holds_graph_buffers(device, context)
                &&& !after.fault ==> points@ == read_points(
                    after.memory[GraphBuffer::ResultStaging].take(2 * top),
                )
            }
}

/// A vector with zeros behind it.
pub open spec fn zero_filled(vector: Seq<VectorElementType>, len: nat) -> Seq<u32> {
    Seq::new(
        len,
        |i: int|
            if i < vector.len() {
                vector[i]
            } else {
                0
            },
    )
}

/// The memory once the words of a search have arrived on the device.
spec fn uploaded_memory(
    memory: Map<GraphBuffer, Seq<u32>>,
    vector: Seq<u32>,
    predicate: Seq<u32>,
    deleted: Seq<u32>,
    request: Seq<u32>,
) -> Map<GraphBuffer, Seq<u32>> {
    memory.insert(GraphBuffer::QueryStaging, vector).insert(
        GraphBuffer::PredicateStaging,
        predicate,
    ).insert(GraphBuffer::DeletedStaging, deleted).insert(GraphBuffer::RequestStaging, request)
}

/// The commands of a search write its words and record the rest.
proof fn lemma_graph_uploads(
    kernels: Kernels<GraphBuffer>,
    device: GraphDevice,
    context: GraphContextView,
    query: Seq<VectorElementType>,
    predicate: Seq<u32>,
    deleted: Seq<u32>,
    entry: PointOffsetType,
    top: usize,
)
    requires
        holds_graph_buffers(device, context),
        query.len() <= context.storage.vector_capacity,
        predicate.len() == ceil_div(context.point_count as int, 32),
        deleted.len() == ceil_div(context.point_count as int, 32),
    ensures
        ({
            let all = graph_search_steps(context, query, predicate, deleted, entry, top);
            let before = performed_all(kernels, device, all, 14);
            &&& all.len() == 15
            &&& before.memory == uploaded_memory(
                device.memory,
                zero_filled(query, context.storage.vector_capacity as nat),
                predicate,
                deleted,
                seq![entry, top as u32, context.point_count as u32, 0u32],
            )
            &&& !before.fault
            &&& before.recorded == all.subrange(4, 14)
            &&& performed_all(kernels, device, all, all.len()) == performed(
                kernels,
                before,
                SearchStep::Run,
            )
        }),
{
    let all = graph_search_steps(context, query, predicate, deleted, entry, top);
    let full = zero_filled(query, context.storage.vector_capacity as nat);
    let request = seq![entry, top as u32, context.point_count as u32, 0u32];
    assert(all[0]->words =~= full);
    let d1 = performed_all(kernels, device, all, 1);
    let d2 = performed_all(kernels, device, all, 2);
    let d3 = performed_all(kernels, device, all, 3);
    let d4 = performed_all(kernels, device, all, 4);
    assert(performed_all(kernels, device, all, 0) == device);
    lemma_performed_next(kernels, device, all, 0);
    lemma_upload_whole(kernels, device, GraphBuffer::QueryStaging, full);
    lemma_performed_next(kernels, device, all, 1);
    lemma_upload_whole(kernels, d1, GraphBuffer::PredicateStaging, predicate);
    lemma_performed_next(kernels, device, all, 2);
    lemma_upload_whole(kernels, d2, GraphBuffer::DeletedStaging, deleted);
    lemma_performed_next(kernels, device, all, 3);
    lemma_upload_whole(kernels, d3, GraphBuffer::RequestStaging, request);
    assert forall|i: int| 4 <= i < 14 implies is_recorded(#[trigger] all[i]) by {}
    lemma_recorded(kernels, device, all, 4, 14);
    assert(d4.recorded + all.subrange(4, 14) =~= all.subrange(4, 14));
    lemma_performed_next(kernels, device, all, 14);
}

/// The recorded work up to the shader puts the words of a search into the bound buffers.
proof fn lemma_graph_copies(
    kernels: Kernels<GraphBuffer>,
    state: Working<GraphBuffer>,
    context: GraphContextView,
    query: Seq<VectorElementType>,
    predicate: Seq<u32>,
    deleted: Seq<u32>,
    entry: PointOffsetType,
    top: usize,
    initial: GraphDevice,
)
    requires
        holds_graph_buffers(initial, context),
        predicate.len() == ceil_div(context.point_count as int, 32),
        deleted.len() == ceil_div(context.point_count as int, 32),
        context.point_count > 0,
        state.memory == uploaded_memory(
            initial.memory,
            zero_filled(query, context.storage.vector_capacity as nat),
            predicate,
            deleted,
            seq![entry, top as u32, context.point_count as u32, 0u32],
        ),
        state.unsettled == Set::<GraphBuffer>::empty(),
        !state.fault,
    ensures
        ({
            let all = graph_search_steps(context, query, predicate, deleted, entry, top);
            let after = worked_all(kernels, state, all.subrange(4, 14), 5);
            &&& !after.fault
            &&& after.memory == state.memory.insert(
                GraphBuffer::Visited,
                Seq::new(state.memory[GraphBuffer::Visited].len(), |i: int| 0u32),
            ).insert(
                GraphBuffer::Query,
                zero_filled(query, context.storage.vector_capacity as nat),
            ).insert(GraphBuffer::Predicate, predicate).insert(
                GraphBuffer::Deleted,
                deleted,
            ).insert(
                GraphBuffer::Request,
                seq![entry, top as u32, context.point_count as u32, 0u32],
            )
            &&& after.unsettled == set![
                GraphBuffer::Visited,
                GraphBuffer::Query,
                GraphBuffer::Predicate,
                GraphBuffer::Deleted,
                GraphBuffer::Request,
            ]
        }),
{
    let all = graph_search_steps(context, query, predicate, deleted, entry, top);
    let work = all.subrange(4, 14);
    let vector = context.storage.vector_capacity as nat;
    let bits = ceil_div(context.point_count as int, 32) as nat;
    lemma_ceil_div(context.point_count as int, 32);
    assert(point_words(context.point_count) == bits);
    let full = zero_filled(query, vector);
    let request = seq![entry, top as u32, context.point_count as u32, 0u32];
    assert(words_of(bits * WORD_SIZE as nat) == bits);
    assert(words_of(vector * WORD_SIZE as nat) == vector);
    assert(words_of(REQUEST_WORDS as nat * WORD_SIZE as nat) == 4);
    let w1 = worked_all(kernels, state, work, 1);
    let w2 = worked_all(kernels, state, work, 2);
    let w3 = worked_all(kernels, state, work, 3);
    let w4 = worked_all(kernels, state, work, 4);
    let w5 = worked_all(kernels, state, work, 5);
    assert(worked_all(kernels, state, work, 0) == state);
    lemma_worked_next(kernels, state, work, 0);
    lemma_worked_next(kernels, state, work, 1);
    lemma_copy_whole(
        kernels,
        w1,
        GraphBuffer::QueryStaging,
        GraphBuffer::Query,
        vector * WORD_SIZE as nat,
    );
    lemma_worked_next(kernels, state, work, 2);
    lemma_copy_whole(
        kernels,
        w2,
        GraphBuffer::PredicateStaging,
        GraphBuffer::Predicate,
        bits * WORD_SIZE as nat,
    );
    lemma_worked_next(kernels, state, work, 3);
    lemma_copy_whole(
        kernels,
        w3,
        GraphBuffer::DeletedStaging,
        GraphBuffer::Deleted,
        bits * WORD_SIZE as nat,
    );
    lemma_worked_next(kernels, state, work, 4);
    lemma_copy_whole(
        kernels,
        w4,
        GraphBuffer::RequestStaging,
        GraphBuffer::Request,
        REQUEST_WORDS as nat * WORD_SIZE as nat,
    );
    assert(w5.unsettled =~= set![
        GraphBuffer::Visited,
        GraphBuffer::Query,
        GraphBuffer::Predicate,
        GraphBuffer::Deleted,
        GraphBuffer::Request,
    ]);
}

/// What the shader is given and what comes back of it when a graph search is performed.
#[verifier::rlimit(40)]
proof fn lemma_graph_commands(
    kernels: Kernels<GraphBuffer>,
    device: GraphDevice,
    context: GraphContextView,
    query: Seq<VectorElementType>,
    predicate: Seq<u32>,
    deleted: Seq<u32>,
    entry: PointOffsetType,
    top: usize,
) -> (r: (Seq<Seq<u32>>, Map<GraphBuffer, Seq<u32>>))
    requires
        holds_graph_buffers(device, context),
        query.len() <= context.storage.vector_capacity,
        predicate.len() == ceil_div(context.point_count as int, 32),
        deleted.len() == ceil_div(context.point_count as int, 32),
        0 < top <= context.ef,
        context.point_count > 0,
    ensures
        r.0.len() == 5,
        r.0[0] == zero_filled(query, context.storage.vector_capacity as nat),
        r.0[1].len() == 2 * context.ef,
        r.0[2] == predicate,
        r.0[3] == deleted,
        r.0[4] == seq![entry, top as u32, context.point_count as u32, 0u32],
        forall|i: int|
            0 <= i < r.1[GraphBuffer::Visited].len() ==> #[trigger] r.1[GraphBuffer::Visited][i]
                == 0,
        ({
            let output = kernels(Kernel::FilteredGraph, r.0, r.1, 1, 1);
            let all = graph_search_steps(context, query, predicate, deleted, entry, top);
            let after = performed_all(kernels, device, all, all.len());
            output.len() == 5 && output[1].len() == 2 * context.ef ==> {
                &&& !after.fault
                &&& after.memory[GraphBuffer::ResultStaging].take(2 * top) == output[1].take(
                    2 * top,
                )
            }
        }),
{
    let all = graph_search_steps(context, query, predicate, deleted, entry, top);
    let work = all.subrange(4, 14);
    lemma_graph_uploads(kernels, device, context, query, predicate, deleted, entry, top);
    let before = performed_all(kernels, device, all, 14);
    lemma_run(kernels, before);
    let w0 = Working {
        memory: before.memory,
        unsettled: Set::empty(),
        bound: None,
        fault: false,
    };
    lemma_graph_copies(
        kernels,
        w0,
        context,
        query,
        predicate,
        deleted,
        entry,
        top,
        device,
    );
    let w5 = worked_all(kernels, w0, work, 5);
    let w6 = worked_all(kernels, w0, work, 6);
    let w7 = worked_all(kernels, w0, work, 7);
    let w8 = worked_all(kernels, w0, work, 8);
    let w9 = worked_all(kernels, w0, work, 9);
    let w10 = worked_all(kernels, w0, work, 10);
    lemma_worked_next(kernels, w0, work, 5);
    lemma_worked_next(kernels, w0, work, 6);
    lemma_worked_next(kernels, w0, work, 7);
    lemma_worked_next(kernels, w0, work, 8);
    lemma_worked_next(kernels, w0, work, 9);
    let settled = work[5]->buffers;
    assert(work[5] == (SearchStep::Barrier { buffers: settled }));
    assert(settled[0] == GraphBuffer::Query && settled[1] == GraphBuffer::Predicate && settled[2]
        == GraphBuffer::Deleted && settled[3] == GraphBuffer::Request);
    assert(settled.contains(GraphBuffer::Query) && settled.contains(GraphBuffer::Predicate)
        && settled.contains(GraphBuffer::Deleted) && settled.contains(GraphBuffer::Request));
    let bound = work[6]->storage;
    assert(work[6] == (SearchStep::Bind { kernel: Kernel::FilteredGraph, storage: bound }));
    assert(bound.len() == 5);
    assert(w7.bound == Some((Kernel::FilteredGraph, bound)));
    assert(w7.memory == w5.memory && !w7.fault);
    assert forall|i: int| 0 <= i < bound.len() implies w7.memory.contains_key(#[trigger] bound[i])
        && !w7.unsettled.contains(bound[i]) by {
        assert(bound[i] == bound[0] || bound[i] == bound[1] || bound[i] == bound[2] || bound[i]
            == bound[3] || bound[i] == bound[4]);
    }
    assert(work[7] == (SearchStep::<GraphBuffer>::Dispatch { x: 1, y: 1 }));
    lemma_dispatch(kernels, w7, Kernel::FilteredGraph, bound, 1, 1);
    let slots = contents(w7.memory, bound);
    let memory = w7.memory;
    let output = kernels(Kernel::FilteredGraph, slots, memory, 1, 1);
    if output.len() == 5 && output[1].len() == 2 * context.ef {
        assert(bound[1] == GraphBuffer::Results);
        assert(is_only_place(bound, 1));
        assert(w8.memory[bound[1]] == output[1]);
        assert(!bound.contains(GraphBuffer::ResultStaging));
        let last = work[8]->buffers;
        assert(work[8] == (SearchStep::Barrier { buffers: last }));
        assert(last[0] == GraphBuffer::Results);
        assert(last.contains(GraphBuffer::Results));
        assert(!w9.unsettled.contains(GraphBuffer::Results));
        assert(words_of(top as nat * SCORED_POINT_SIZE as nat) == 2 * top);
        assert(w8.memory.contains_key(GraphBuffer::Results));
        assert(w8.memory.contains_key(GraphBuffer::ResultStaging));
        assert(w8.memory[GraphBuffer::ResultStaging] == w7.memory[GraphBuffer::ResultStaging]);
        assert(!w10.fault);
        assert(w10.memory[GraphBuffer::ResultStaging].take(2 * top) =~= output[1].take(2 * top));
    }
    (slots, memory)
}

/// A search over a graph finds the points that it may see. Where commands are performed on a device
/// whose shader walks over the points of its slots, a search that is performed gives the first
/// points of the walk from the entry point over the points that are included and not deleted.
pub proof fn lemma_device_walks_over_visible_points<
    R: Fn(Vec<GraphCommand>, usize) -> OperationResult<Vec<ScoredPointOffset>>,
>(
    run: &R,
    context: GraphContextView,
    kernels: Kernels<GraphBuffer>,
    walk: DeviceWalk,
    read_points: ReadPoints,
    query: Seq<VectorElementType>,
    entry: PointOffsetType,
    included: Seq<PointOffsetType>,
    deleted: Option<Seq<bool>>,
    top: usize,
    results: Vec<ScoredPointOffset>,
)
    requires
        performs_graph_commands(run, context, kernels, read_points),
        kernel_walks(kernels, context, walk, read_points),
        context.point_count > 0,
        context.ef <= u32::MAX,
        graph_search_outcome(
            run,
            context,
            query,
            entry,
            included,
            deleted,
            top,
            Ok(results),
        ),
    ensures
        results@ == first_k(
            walk(
                zero_filled(query, context.storage.vector_capacity as nat),
                entry,
                |p: int|
                    (exists|k: int| 0 <= k < included.len() && #[trigger] included[k] == p) && !(
                    deleted is Some && p < deleted->0.len() && deleted->0[p]),
            ),
            top as nat,
        ),
        exists|k: int| 0 <= k < included.len() && #[trigger] included[k] == entry,
        !(deleted is Some && entry < deleted->0.len() && deleted->0[entry as int]),
        0 < top <= context.ef,
{
    let visible = |p: int|
        (exists|k: int| 0 <= k < included.len() && #[trigger] included[k] == p) && !(deleted is Some
            && p < deleted->0.len() && deleted->0[p]);
    let reply = choose|reply: OperationResult<Vec<ScoredPointOffset>>|
        {
            &&& #[trigger] graph_searched(
                run,
                context,
                query,
                entry,
                included,
                deleted,
                top,
                reply,
            )
            &&& reply is Ok
            &&& results@ == present(reply->Ok_0@)
        };
    let points = reply->Ok_0;
    let commands = choose|commands: Vec<GraphCommand>|
        {
            &&& #[trigger] run.ensures((commands, top), reply)
            &&& is_graph_search(commands@, context, query, entry, included, deleted, top)
        };
    let (predicate_words, deleted_words) = choose|
        predicate_words: Seq<u32>,
        deleted_words: Seq<u32>,
    |
        {
            &&& selects(predicate_words, included, context.point_count)
            &&& marks_deleted(deleted_words, deleted, context.point_count)
            &&& steps(commands@) == #[trigger] graph_search_steps(
                context,
                query,
                predicate_words,
                deleted_words,
                entry,
                top,
            )
        };
    assert(run.ensures((commands, top), Ok(points)));
    let device = choose|device: GraphDevice|
        {
            let after = performed_all(kernels, device, steps(commands@), steps(commands@).len());
            &&& #[trigger] holds_graph_buffers(device, context)
            &&& !after.fault ==> points@ == read_points(
                after.memory[GraphBuffer::ResultStaging].take(2 * top),
            )
        };
    let (slots, memory) = lemma_graph_commands(
        kernels,
        device,
        context,
        query,
        predicate_words,
        deleted_words,
        entry,
        top,
    );
    assert(walks_over(kernels, context, walk, read_points, slots, memory, entry, top as u32));
    assert forall|p: int| #[trigger] sees(predicate_words, deleted_words)(p) == visible(p) by {
        assert(packed_bit32(predicate_words, p) == is_selected(included, p));
        assert(packed_bit32(deleted_words, p) == is_deleted(deleted, context.point_count, p));
        if is_selected(included, p) {
            let k = choose|k: int| 0 <= k < included.len() && #[trigger] included[k] == p;
            assert(included[k] < context.point_count);
        }
    }
    assert(sees(predicate_words, deleted_words) =~= visible);
}

/// The commands that set a graph search up make buffers of the sizes that searches need.
pub proof fn lemma_graph_buffers_fit(
    kernels: Kernels<GraphBuffer>,
    device: GraphDevice,
    context: GraphContextView,
)
    requires
        is_idle(device),
        device.memory.contains_key(GraphBuffer::Visited),
    ensures
        ({
            let all = graph_buffers(context.storage, context.point_count, context.ef);
            holds_graph_buffers(performed_all(kernels, device, all, all.len()), context)
        }),
{
    let all = graph_buffers(context.storage, context.point_count, context.ef);
    let bits = point_words(context.point_count);
    assert(all.len() == 10);
    assert(all[0]->Create_buffer == GraphBuffer::Query);
    assert(all[1]->Create_buffer == GraphBuffer::QueryStaging);
    assert(all[2]->Create_buffer == GraphBuffer::Results);
    assert(all[3]->Create_buffer == GraphBuffer::ResultStaging);
    assert(all[4]->Create_buffer == GraphBuffer::Predicate);
    assert(all[5]->Create_buffer == GraphBuffer::PredicateStaging);
    assert(all[6]->Create_buffer == GraphBuffer::Deleted);
    assert(all[7]->Create_buffer == GraphBuffer::DeletedStaging);
    assert(all[8]->Create_buffer == GraphBuffer::Request);
    assert(all[9]->Create_buffer == GraphBuffer::RequestStaging);
    assert(only_creates(all));
    lemma_created(kernels, device, all, 10);
    lemma_ceil_div(context.point_count as int, 32);
    assert(words_of(bits * WORD_SIZE as nat) == bits);
    assert(words_of(context.storage.vector_capacity as nat * WORD_SIZE as nat)
        == context.storage.vector_capacity);
    assert(words_of(REQUEST_WORDS as nat * WORD_SIZE as nat) == 4);
    assert((context.ef * 8) / 4 == 2 * context.ef) by (nonlinear_arith);
    assert(words_of(context.ef * SCORED_POINT_SIZE as nat) == 2 * context.ef);
}

} // verus!
