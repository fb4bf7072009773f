//! Search over the lowest layer of a graph that sees only some of the points.

use vstd::prelude::*;

use crate::arith::{ceil_div, div_ceil_usize, lemma_ceil_div};
use crate::bits::{packed_bit32, set_packed_bit32, test_bit32, zero_words32};
use crate::buffer_telemetry::BufferType;
use crate::error::{
    always_stopped, can_poll, cancelled, failed, may_stop, OperationError, OperationResult,
};
use crate::gpu::block_topk::{present, NO_POINT};
use crate::gpu::commands::{blank_device, executed_all, WORD_SIZE};
use crate::gpu::exact_context::{padded, push_padded, SCORED_POINT_SIZE};
use crate::gpu::links::{
    layer_fault, layer_image, lemma_max_links, made_fixed, max_links, params_words,
    ready_for_upload, GpuLinks, LinksBuffer, LinksCommand, LinksDevice, LinksView,
    LINKS_TRANSFER_BUFFER_SIZE,
};
use crate::gpu::search_commands::{
    push_step, steps, GpuVectorStorage, Kernel, SearchCommand, SearchStep,
};
use crate::gpu::visibility::WORD_BITS;
use crate::graph::GraphLayers;
use crate::storage::VectorElementType;
use crate::text::{decimal, decimal_text};
use crate::top_k::first_k;
use crate::types::{PointOffsetType, ScoredPointOffset};

verus! {

/// A heap is used instead of a list from this number of kept points on.
pub const MIN_POINTS_FOR_BINARY_HEAP: usize = 512;

/// Number of words of a request.
pub const REQUEST_WORDS: usize = 4;

/// The buffers of a graph search.
#[derive(Clone, Copy, Debug, PartialEq, Eq, Structural)]
pub enum GraphBuffer {
    Query,
    QueryStaging,
    Results,
    ResultStaging,
    /// One bit for every point that the predicate selects.
    Predicate,
    PredicateStaging,
    /// One bit for every deleted point.
    Deleted,
    DeletedStaging,
    Request,
    RequestStaging,
    /// Marks of the points that a search has seen.
    Visited,
}

/// Command of a graph search.
pub type GraphCommand = SearchCommand<GraphBuffer>;

/// What a command of a graph search says.
pub type GraphStep = SearchStep<GraphBuffer>;

/// Graph search on a device.
#[derive(Debug)]
pub struct GpuFilteredGraphSearchContext {
    storage: GpuVectorStorage,
    links: GpuLinks,
    point_count: usize,
    word_count: usize,
    ef: usize,
}

/// What a context knows of itself.
pub ghost struct GraphContextView {
    pub storage: GpuVectorStorage,
    pub links: LinksView,
    pub point_count: nat,
    pub ef: nat,
}

impl View for GpuFilteredGraphSearchContext {
    type V = GraphContextView;

    closed spec fn view(&self) -> GraphContextView {
        GraphContextView {
            storage: self.storage,
            links: self.links@,
            point_count: self.point_count as nat,
            ef: self.ef as nat,
        }
    }
}

/// Words with one bit for every point.
pub open spec fn point_words(point_count: nat) -> nat {
    ceil_div(point_count as int, WORD_BITS as int) as nat
}

/// Make a buffer on the device and one to transfer its contents.
pub open spec fn buffer_pair(
    buffer: GraphBuffer,
    label: Seq<char>,
    staging: GraphBuffer,
    staging_label: Seq<char>,
    staging_type: BufferType,
    bytes: nat,
) -> Seq<GraphStep> {
    seq![
        SearchStep::Create { buffer, label, buffer_type: BufferType::Storage, bytes },
        SearchStep::Create {
            buffer: staging,
            label: staging_label,
            buffer_type: staging_type,
            bytes,
        },
    ]
}

/// The buffers of a context.
pub open spec fn graph_buffers(
    storage: GpuVectorStorage,
    point_count: nat,
    ef: nat,
) -> Seq<GraphStep> {
    let words = point_words(point_count) * WORD_SIZE as nat;
    buffer_pair(
        GraphBuffer::Query,
        "Filtered graph query"@,
        GraphBuffer::QueryStaging,
        "Filtered graph query upload"@,
        BufferType::CpuToGpu,
        storage.vector_capacity as nat * WORD_SIZE as nat,
    ) + buffer_pair(
        GraphBuffer::Results,
        "Filtered graph results"@,
        GraphBuffer::ResultStaging,
        "Filtered graph result download"@,
        BufferType::GpuToCpu,
        ef * SCORED_POINT_SIZE as nat,
    ) + buffer_pair(
        GraphBuffer::Predicate,
        "Filtered graph predicate words"@,
        GraphBuffer::PredicateStaging,
        "Filtered graph predicate upload"@,
        BufferType::CpuToGpu,
        words,
    ) + buffer_pair(
        GraphBuffer::Deleted,
        "Filtered graph deleted words"@,
        GraphBuffer::DeletedStaging,
        "Filtered graph deleted upload"@,
        BufferType::CpuToGpu,
        words,
    ) + buffer_pair(
        GraphBuffer::Request,
        "Filtered graph request"@,
        GraphBuffer::RequestStaging,
        "Filtered graph request upload"@,
        BufferType::CpuToGpu,
        REQUEST_WORDS as nat * WORD_SIZE as nat,
    )
}

/// Why a graph search cannot be set up.
pub open spec fn graph_setup_fault(
    storage: GpuVectorStorage,
    graph: GraphLayers,
    point_count: nat,
    ef: nat,
) -> Option<Seq<char>> {
    if point_count == 0 || ef == 0 || point_count != storage.num_vectors {
        Some("GPU filtered graph capacities are inconsistent"@)
    } else if max_links(graph, point_count, 0) == 0 {
        Some("GPU filtered graph has no level-0 links"@)
    } else {
        None
    }
}

/// The sizes of a graph search can be computed, and the links of a point fit in the transfer
/// buffer.
pub open spec fn graph_setup_fits(
    storage: GpuVectorStorage,
    graph: GraphLayers,
    point_count: nat,
    ef: nat,
) -> bool {
    let row_bytes = (max_links(graph, point_count, 0) + 1) * WORD_SIZE;
    &&& point_count <= PointOffsetType::MAX + 1
    &&& row_bytes <= LINKS_TRANSFER_BUFFER_SIZE
    &&& point_count * (max_links(graph, point_count, 0) + 1) * WORD_SIZE <= usize::MAX
    &&& storage.vector_capacity * WORD_SIZE <= usize::MAX
    &&& ef * SCORED_POINT_SIZE <= usize::MAX
}

/// Make a buffer on the device and one to transfer its contents.
fn create_pair(
    commands: &mut Vec<GraphCommand>,
    buffer: GraphBuffer,
    label: &'static str,
    staging: GraphBuffer,
    staging_label: &'static str,
    staging_type: BufferType,
    bytes: usize,
)
    ensures
        steps(final(commands)@) == steps(old(commands)@) + buffer_pair(
            buffer,
            label@,
            staging,
            staging_label@,
            staging_type,
            bytes as nat,
        ),
{
    let ghost before = steps(commands@);
    push_step(
        commands,
        SearchCommand::Create { buffer, label, buffer_type: BufferType::Storage, bytes },
    );
    push_step(
        commands,
        SearchCommand::Create {
            buffer: staging,
            label: staging_label,
            buffer_type: staging_type,
            bytes,
        },
    );
    proof {
        assert(steps(commands@) =~= before + buffer_pair(
            buffer,
            label@,
            staging,
            staging_label@,
            staging_type,
            bytes as nat,
        ));
    }
}

/// No point has too many links when there is room for the most links of a point.
proof fn lemma_room_for_all(graph: GraphLayers, n: nat, points_count: nat)
    requires
        n <= points_count,
    ensures
        layer_fault(graph, 0, n, max_links(graph, points_count, 0)) is None,
    decreases n,
{
    if n > 0 {
        lemma_room_for_all(graph, (n - 1) as nat, points_count);
        lemma_max_links(graph, points_count, 0, n - 1);
    }
}

/// The device holds the lowest layer of the graph.
pub open spec fn graph_resident(
    device: LinksDevice,
    graph: GraphLayers,
    point_count: nat,
    links: LinksView,
) -> bool {
    &&& links.resident(device)
    &&& device.memory[LinksBuffer::Links] == layer_image(
        graph,
        0,
        point_count,
        links.stride(),
        point_count * links.stride(),
    )
    &&& device.memory[LinksBuffer::Params] == params_words(links.m, links.links_capacity)
}

impl GpuFilteredGraphSearchContext {
    /// Sizes can be computed.
    pub closed spec fn wf(&self) -> bool {
        &&& self.storage.vector_capacity * WORD_SIZE <= usize::MAX
        &&& self.ef * SCORED_POINT_SIZE <= usize::MAX
        &&& self.point_count > 0
        &&& self.word_count == point_words(self.point_count as nat)
    }

    /// Set up a graph search. The first commands put the links on the device, the others make the
    /// buffers.
    pub fn new<S: Fn() -> bool>(
        storage: GpuVectorStorage,
        graph: &GraphLayers,
        point_count: usize,
        ef: usize,
        is_stopped: &S,
    ) -> (r: OperationResult<(Self, Vec<LinksCommand>, Vec<GraphCommand>)>)
        requires
            graph_setup_fault(storage, *graph, point_count as nat, ef as nat) is None
                ==> graph_setup_fits(storage, *graph, point_count as nat, ef as nat),
            can_poll(is_stopped),
        ensures
            match graph_setup_fault(storage, *graph, point_count as nat, ef as nat) {
                Some(text) => failed(r, text),
                None => r is Ok || cancelled(r),
            },
            cancelled(r) ==> may_stop(is_stopped),
            graph_setup_fault(storage, *graph, point_count as nat, ef as nat) is None
                && always_stopped(is_stopped) ==> cancelled(r),
            r matches Ok((context, uploads, buffers)) ==> {
                &&& context.wf()
                &&& context@.storage == storage
                &&& context@.point_count == point_count
                &&& context@.ef == ef
                &&& context@.links.m == graph.m0
                &&& context@.links.links_capacity == max_links(*graph, point_count as nat, 0)
                &&& forall|undefined: spec_fn(LinksBuffer, int) -> u32|
                    graph_resident(
                        #[trigger] executed_all(blank_device(undefined), uploads@),
                        *graph,
                        point_count as nat,
                        context@.links,
                    )
                &&& steps(buffers@) == graph_buffers(storage, point_count as nat, ef as nat)
            },
    {
        if point_count == 0 || ef == 0 || point_count != storage.num_vectors {
            return Err(
                OperationError::service_error("GPU filtered graph capacities are inconsistent"),
            );
        }
        let most: usize = GpuLinks::max_links_on_level(graph, point_count, 0);
        if most == 0 {
            return Err(OperationError::service_error("GPU filtered graph has no level-0 links"));
        }
        let (mut links, mut uploads) = GpuLinks::new(graph.get_m(0), most, point_count);
        let ghost made = uploads@;
        let ghost fixed = links@;
        proof {
            lemma_room_for_all(*graph, point_count as nat, point_count as nat);
            let d = ((most + 1) * WORD_SIZE) as int;
            assert(LINKS_TRANSFER_BUFFER_SIZE as int / d >= 1) by (nonlinear_arith)
                requires
                    0 < d <= LINKS_TRANSFER_BUFFER_SIZE,
            ;
        }
        match links.upload_graph_layer(0, graph, point_count, &mut uploads, is_stopped) {
            Ok(_) => {},
            Err(error) => {
                return Err(error);
            },
        }
        proof {
            lemma_ceil_div(point_count as int, WORD_BITS as int);
            assert forall|undefined: spec_fn(LinksBuffer, int) -> u32|
                graph_resident(
                    #[trigger] executed_all(blank_device(undefined), uploads@),
                    *graph,
                    point_count as nat,
                    links@,
                ) by {
                let start = blank_device(undefined);
                assert(made_fixed(executed_all(start, made), fixed, point_count as nat));
                assert(ready_for_upload(executed_all(start, made), fixed, point_count as nat));
            }
        }
        let word_count: usize = div_ceil_usize(point_count, WORD_BITS);
        let word_bytes: usize = word_count * WORD_SIZE;
        let mut buffers: Vec<GraphCommand> = Vec::new();
        create_pair(
            &mut buffers,
            GraphBuffer::Query,
            "Filtered graph query",
            GraphBuffer::QueryStaging,
            "Filtered graph query upload",
            BufferType::CpuToGpu,
            storage.vector_capacity * WORD_SIZE,
        );
        create_pair(
            &mut buffers,
            GraphBuffer::Results,
            "Filtered graph results",
            GraphBuffer::ResultStaging,
            "Filtered graph result download",
            BufferType::GpuToCpu,
            ef * SCORED_POINT_SIZE,
        );
        create_pair(
            &mut buffers,
            GraphBuffer::Predicate,
            "Filtered graph predicate words",
            GraphBuffer::PredicateStaging,
            "Filtered graph predicate upload",
            BufferType::CpuToGpu,
            word_bytes,
        );
        create_pair(
            &mut buffers,
            GraphBuffer::Deleted,
            "Filtered graph deleted words",
            GraphBuffer::DeletedStaging,
            "Filtered graph deleted upload",
            BufferType::CpuToGpu,
            word_bytes,
        );
        create_pair(
            &mut buffers,
            GraphBuffer::Request,
            "Filtered graph request",
            GraphBuffer::RequestStaging,
            "Filtered graph request upload",
            BufferType::CpuToGpu,
            REQUEST_WORDS * WORD_SIZE,
        );
        proof {
            assert(steps(buffers@) =~= graph_buffers(storage, point_count as nat, ef as nat));
        }
        let context = GpuFilteredGraphSearchContext {
            storage,
            links,
            point_count,
            word_count,
            ef,
        };
        Ok((context, uploads, buffers))
    }

    /// Names that the shader is built with, and their values.
    pub fn shader_defines(&self) -> (r: Vec<(String, Option<String>)>)
        ensures
            r@.len() == if self@.ef < MIN_POINTS_FOR_BINARY_HEAP {
                2nat
            } else {
                1nat
            },
            r@[0].0@ == "EF"@ && r@[0].1 is Some && r@[0].1->0@ == decimal(self@.ef),
            self@.ef < MIN_POINTS_FOR_BINARY_HEAP ==> r@[1].0@ == "BHEAP_LINEAR"@ && r@[1].1
                is None,
    {
        let mut r: Vec<(String, Option<String>)> = Vec::new();
        r.push(("EF".to_owned(), Some(decimal_text(self.ef as u64))));
        if self.ef < MIN_POINTS_FOR_BINARY_HEAP {
            r.push(("BHEAP_LINEAR".to_owned(), None));
        }
        r
    }
}

/// The words have one bit for every point of the list.
pub open spec fn selects(words: Seq<u32>, points: Seq<PointOffsetType>, point_count: nat) -> bool {
    &&& words.len() == point_words(point_count)
    &&& forall|i: int| #[trigger] packed_bit32(words, i) == is_selected(points, i)
}

/// The point is in the list.
pub open spec fn is_selected(points: Seq<PointOffsetType>, point_id: int) -> bool {
    exists|k: int| 0 <= k < points.len() && #[trigger] points[k] == point_id
}

/// The point is deleted.
pub open spec fn is_deleted(
    deleted: Option<Seq<bool>>,
    point_count: nat,
    point_id: int,
) -> bool {
    deleted matches Some(flags) && 0 <= point_id < point_count && point_id < flags.len()
        && flags[point_id]
}

/// The words have one bit for every deleted point.
pub open spec fn marks_deleted(
    words: Seq<u32>,
    deleted: Option<Seq<bool>>,
    point_count: nat,
) -> bool {
    &&& words.len() == point_words(point_count)
    &&& forall|i: int| #[trigger] packed_bit32(words, i) == is_deleted(deleted, point_count, i)
}

/// The deletion flags, if there are any.
pub open spec fn deletion_flags(deleted: Option<&[bool]>) -> Option<Seq<bool>> {
    match deleted {
        Some(flags) => Some(flags@),
        None => None,
    }
}

/// Why a graph search is refused.
pub open spec fn graph_search_fault(
    context: GraphContextView,
    query_len: nat,
    entry: PointOffsetType,
    included: Seq<PointOffsetType>,
    deleted: Option<Seq<bool>>,
    top: nat,
) -> Option<Seq<char>> {
    if query_len > context.storage.vector_capacity || top == 0 || top > context.ef {
        Some("GPU filtered graph query shape is unsupported"@)
    } else if entry >= context.point_count {
        Some("GPU filtered graph entry is out of range"@)
    } else if exists|k: int|
        0 <= k < included.len() && (#[trigger] included[k]) >= context.point_count {
        Some("GPU filtered graph predicate contains an out-of-range point"@)
    } else if !is_selected(included, entry as int) || is_deleted(
        deleted,
        context.point_count,
        entry as int,
    ) {
        Some("GPU filtered graph entry is not visible in the predicate"@)
    } else {
        None
    }
}

/// The commands of a graph search.
pub open spec fn graph_search_steps(
    context: GraphContextView,
    query: Seq<VectorElementType>,
    predicate: Seq<u32>,
    deleted: Seq<u32>,
    entry: PointOffsetType,
    top: usize,
) -> Seq<GraphStep> {
    let words = point_words(context.point_count) * WORD_SIZE as nat;
    seq![
        SearchStep::Upload {
            buffer: GraphBuffer::QueryStaging,
            words: padded(query, context.storage.vector_capacity as nat),
        },
        SearchStep::Upload { buffer: GraphBuffer::PredicateStaging, words: predicate },
        SearchStep::Upload { buffer: GraphBuffer::DeletedStaging, words: deleted },
        SearchStep::Upload {
            buffer: GraphBuffer::RequestStaging,
            words: seq![entry, top as u32, context.point_count as u32, 0],
        },
        SearchStep::Clear { buffer: GraphBuffer::Visited },
        SearchStep::Copy {
            source: GraphBuffer::QueryStaging,
            target: GraphBuffer::Query,
            bytes: context.storage.vector_capacity as nat * WORD_SIZE as nat,
        },
        SearchStep::Copy {
            source: GraphBuffer::PredicateStaging,
            target: GraphBuffer::Predicate,
            bytes: words,
        },
        SearchStep::Copy {
            source: GraphBuffer::DeletedStaging,
            target: GraphBuffer::Deleted,
            bytes: words,
        },
        SearchStep::Copy {
            source: GraphBuffer::RequestStaging,
            target: GraphBuffer::Request,
            bytes: REQUEST_WORDS as nat * WORD_SIZE as nat,
        },
        SearchStep::Barrier {
            buffers: seq![
                GraphBuffer::Query,
                GraphBuffer::Predicate,
                GraphBuffer::Deleted,
                GraphBuffer::Request,
            ],
        },
        SearchStep::Bind {
            kernel: Kernel::FilteredGraph,
            storage: seq![
                GraphBuffer::Query,
                GraphBuffer::Results,
                GraphBuffer::Predicate,
                GraphBuffer::Deleted,
                GraphBuffer::Request,
            ],
        },
        SearchStep::Dispatch { x: 1, y: 1 },
        SearchStep::Barrier { buffers: seq![GraphBuffer::Results] },
        SearchStep::Copy {
            source: GraphBuffer::Results,
            target: GraphBuffer::ResultStaging,
            bytes: top as nat * SCORED_POINT_SIZE as nat,
        },
        SearchStep::Run,
    ]
}

/// The commands perform this graph search.
pub open spec fn is_graph_search(
    commands: Seq<GraphCommand>,
    context: GraphContextView,
    query: Seq<VectorElementType>,
    entry: PointOffsetType,
    included: Seq<PointOffsetType>,
    deleted: Option<Seq<bool>>,
    top: usize,
) -> bool {
    exists|predicate_words: Seq<u32>, deleted_words: Seq<u32>|
        {
            &&& selects(predicate_words, included, context.point_count)
            &&& marks_deleted(deleted_words, deleted, context.point_count)
            &&& steps(commands) == #[trigger] graph_search_steps(
                context,
                query,
                predicate_words,
                deleted_words,
                entry,
                top,
            )
        }
}

/// A graph search was answered like this.
pub open spec fn graph_searched<
    R: Fn(Vec<GraphCommand>, usize) -> OperationResult<Vec<ScoredPointOffset>>,
>(
    run: &R,
    context: GraphContextView,
    query: Seq<VectorElementType>,
    entry: PointOffsetType,
    included: Seq<PointOffsetType>,
    deleted: Option<Seq<bool>>,
    top: usize,
    reply: OperationResult<Vec<ScoredPointOffset>>,
) -> bool {
    exists|commands: Vec<GraphCommand>|
        {
            &&& #[trigger] run.ensures((commands, top), reply)
            &&& is_graph_search(commands@, context, query, entry, included, deleted, top)
        }
}

/// What a graph search gives.
pub open spec fn graph_search_outcome<
    R: Fn(Vec<GraphCommand>, usize) -> OperationResult<Vec<ScoredPointOffset>>,
>(
    run: &R,
    context: GraphContextView,
    query: Seq<VectorElementType>,
    entry: PointOffsetType,
    included: Seq<PointOffsetType>,
    deleted: Option<Seq<bool>>,
    top: usize,
    r: OperationResult<Vec<ScoredPointOffset>>,
) -> bool {
    match graph_search_fault(context, query.len(), entry, included, deleted, top as nat) {
        Some(text) => failed(r, text),
        None => exists|reply: OperationResult<Vec<ScoredPointOffset>>|
            {
                &&& #[trigger] graph_searched(
                    run,
                    context,
                    query,
                    entry,
                    included,
                    deleted,
                    top,
                    reply,
                )
                &&& match reply {
                    Ok(points) => r matches Ok(results) && results@ == present(points@),
                    Err(error) => r == Err::<Vec<ScoredPointOffset>, OperationError>(error),
                }
            },
    }
}

/// The points that a graph search may see.
pub open spec fn visible_points(
    included: Seq<PointOffsetType>,
    deleted: Option<Seq<bool>>,
    point_count: nat,
) -> spec_fn(int) -> bool {
    |point_id: int| is_selected(included, point_id) && !is_deleted(deleted, point_count, point_id)
}

/// A walk over the lowest layer: the points that it finds for a query from an entry point among the
/// visible points, best first.
pub type Walk = spec_fn(
    Seq<VectorElementType>,
    PointOffsetType,
    spec_fn(int) -> bool,
) -> Seq<ScoredPointOffset>;

/// The device gives back the first points of a walk, as many as are asked for.
pub open spec fn follows_walk<
    R: Fn(Vec<GraphCommand>, usize) -> OperationResult<Vec<ScoredPointOffset>>,
>(run: &R, context: GraphContextView, walk: Walk) -> bool {
    forall|
        commands: Vec<GraphCommand>,
        points: Vec<ScoredPointOffset>,
        query: Seq<VectorElementType>,
        entry: PointOffsetType,
        included: Seq<PointOffsetType>,
        deleted: Option<Seq<bool>>,
        top: usize,
    |
        #![trigger
            run.ensures((commands, top), Ok(points)),
            is_graph_search(commands@, context, query, entry, included, deleted, top)]
        run.ensures((commands, top), Ok(points)) && is_graph_search(
            commands@,
            context,
            query,
            entry,
            included,
            deleted,
            top,
        ) ==> present(points@) == first_k(
            walk(query, entry, visible_points(included, deleted, context.point_count)),
            top as nat,
        )
}

/// Where the device walks over the graph, a search that the device performs gives the first points
/// of the walk over the points that are included and not deleted, every time.
pub proof fn lemma_search_follows_walk<
    R: Fn(Vec<GraphCommand>, usize) -> OperationResult<Vec<ScoredPointOffset>>,
>(
    run: &R,
    context: GraphContextView,
    walk: Walk,
    query: Seq<VectorElementType>,
    entry: PointOffsetType,
    included: Seq<PointOffsetType>,
    deleted: Option<Seq<bool>>,
    top: usize,
    results: Vec<ScoredPointOffset>,
)
    requires
        follows_walk(run, context, walk),
        graph_search_outcome(
            run,
            context,
            query,
            entry,
            included,
            deleted,
            top,
            Ok(results),
        ),
    ensures
        results@ == first_k(
            walk(query, entry, visible_points(included, deleted, context.point_count)),
            top as nat,
        ),
        visible_points(included, deleted, context.point_count)(entry as int),
        0 < top <= context.ef,
{
}

/// A list of buffers.
fn buffer_list(list: &[GraphBuffer]) -> (r: Vec<GraphBuffer>)
    ensures
        r@ == list@,
{
    let mut r: Vec<GraphBuffer> = Vec::new();
    let mut i: usize = 0;
    while i < list.len()
        invariant
            i <= list@.len(),
            r@ == list@.take(i as int),
        decreases list@.len() - i,
    {
        r.push(list[i]);
        proof {
            assert(list@.take(i + 1) =~= list@.take(i as int).push(list@[i as int]));
        }
        i = i + 1;
    }
    proof {
        assert(list@.take(i as int) =~= list@);
    }
    r
}

impl GpuFilteredGraphSearchContext {
    /// Pack the points that the predicate selects. There are none when one is out of range.
    fn pack_predicate(&self, included: &[PointOffsetType]) -> (r: Option<Vec<u32>>)
        requires
            self.wf(),
        ensures
            match r {
                Some(words) => selects(words@, included@, self@.point_count) && forall|k: int|
                    0 <= k < included@.len() ==> (#[trigger] included@[k]) < self@.point_count,
                None => exists|k: int|
                    0 <= k < included@.len() && (#[trigger] included@[k]) >= self@.point_count,
            },
    {
        proof {
            lemma_ceil_div(self.point_count as int, WORD_BITS as int);
        }
        let mut words: Vec<u32> = zero_words32(self.word_count);
        let mut k: usize = 0;
        while k < included.len()
            invariant
                self.wf(),
                k <= included@.len(),
                words@.len() == self.word_count,
                self.point_count <= WORD_BITS * self.word_count,
                forall|j: int|
                    0 <= j < k ==> (#[trigger] included@[j]) < self.point_count,
                forall|i: int| #[trigger]
                    packed_bit32(words@, i) == is_selected(included@.take(k as int), i),
            decreases included@.len() - k,
        {
            let point_id: usize = included[k] as usize;
            if point_id >= self.point_count {
                proof {
                    assert(included@[k as int] >= self@.point_count);
                }
                return None;
            }
            set_packed_bit32(&mut words, point_id);
            proof {
                let before = included@.take(k as int);
                let now = included@.take(k + 1);
                assert forall|i: int| #[trigger]
                    packed_bit32(words@, i) == is_selected(now, i) by {
                    if is_selected(before, i) {
                        let j = choose|j: int|
                            0 <= j < before.len() && #[trigger] before[j] == i;
                        assert(now[j] == i);
                    }
                    if i == point_id {
                        assert(now[k as int] == i);
                    }
                    if is_selected(now, i) && i != point_id {
                        let j = choose|j: int| 0 <= j < now.len() && #[trigger] now[j] == i;
                        assert(before[j] == i);
                    }
                }
            }
            k = k + 1;
        }
        proof {
            assert(included@.take(k as int) =~= included@);
        }
        Some(words)
    }

    /// Pack the deleted points. Flags behind the last point are left out.
    fn pack_deleted(&self, deleted: Option<&[bool]>) -> (words: Vec<u32>)
        requires
            self.wf(),
        ensures
            marks_deleted(words@, deletion_flags(deleted), self@.point_count),
    {
        proof {
            lemma_ceil_div(self.point_count as int, WORD_BITS as int);
        }
        let mut words: Vec<u32> = zero_words32(self.word_count);
        match deleted {
            Some(flags) => {
                let mut i: usize = 0;
                while i < flags.len() && i < self.point_count
                    invariant
                        self.wf(),
                        i <= flags@.len(),
                        i <= self.point_count,
                        words@.len() == self.word_count,
                        self.point_count <= WORD_BITS * self.word_count,
                        forall|j: int| #[trigger]
                            packed_bit32(words@, j) == (0 <= j < i && flags@[j]),
                    decreases flags@.len() - i,
                {
                    if flags[i] {
                        set_packed_bit32(&mut words, i);
                    }
                    i = i + 1;
                }
            },
            None => {},
        }
        words
    }

    /// Check a graph search and put its commands together.
    pub fn plan_search(
        &self,
        query: &[VectorElementType],
        entry: PointOffsetType,
        included: &[PointOffsetType],
        deleted: Option<&[bool]>,
        top: usize,
    ) -> (r: OperationResult<Vec<GraphCommand>>)
        requires
            self.wf(),
        ensures
            match graph_search_fault(
                self@,
                query@.len(),
                entry,
                included@,
                deletion_flags(deleted),
                top as nat,
            ) {
                Some(text) => failed(r, text),
                None => r is Ok,
            },
            r matches Ok(commands) ==> is_graph_search(
                commands@,
                self@,
                query@,
                entry,
                included@,
                deletion_flags(deleted),
                top,
            ),
    {
        let query_capacity: usize = self.storage.vector_capacity;
        if query.len() > query_capacity || top == 0 || top > self.ef {
            return Err(
                OperationError::service_error("GPU filtered graph query shape is unsupported"),
            );
        }
        if entry as usize >= self.point_count {
            return Err(OperationError::service_error("GPU filtered graph entry is out of range"));
        }
        let predicate_words = match self.pack_predicate(included) {
            Some(words) => words,
            None => {
                return Err(
                    OperationError::service_error(
                        "GPU filtered graph predicate contains an out-of-range point",
                    ),
                );
            },
        };
        let deleted_words = self.pack_deleted(deleted);
        proof {
            lemma_ceil_div(self.point_count as int, WORD_BITS as int);
            assert(packed_bit32(predicate_words@, entry as int) == is_selected(
                included@,
                entry as int,
            ));
            assert(packed_bit32(deleted_words@, entry as int) == is_deleted(
                deletion_flags(deleted),
                self@.point_count,
                entry as int,
            ));
        }
        let slot: usize = entry as usize / WORD_BITS;
        let bit: usize = entry as usize % WORD_BITS;
        if !test_bit32(predicate_words[slot], bit) || test_bit32(deleted_words[slot], bit) {
            return Err(
                OperationError::service_error(
                    "GPU filtered graph entry is not visible in the predicate",
                ),
            );
        }
        let ghost predicate = predicate_words@;
        let ghost marked = deleted_words@;
        let mut padded_query: Vec<VectorElementType> = Vec::new();
        push_padded(&mut padded_query, query, query_capacity);
        let mut request: Vec<u32> = Vec::new();
        request.push(entry);
        request.push(top as u32);
        request.push(self.point_count as u32);
        request.push(0);
        let word_bytes: usize = self.word_count * WORD_SIZE;
        let mut commands: Vec<GraphCommand> = Vec::new();
        push_step(
            &mut commands,
            SearchCommand::Upload { buffer: GraphBuffer::QueryStaging, words: padded_query },
        );
        push_step(
            &mut commands,
            SearchCommand::Upload {
                buffer: GraphBuffer::PredicateStaging,
                words: predicate_words,
            },
        );
        push_step(
            &mut commands,
            SearchCommand::Upload { buffer: GraphBuffer::DeletedStaging, words: deleted_words },
        );
        push_step(
            &mut commands,
            SearchCommand::Upload { buffer: GraphBuffer::RequestStaging, words: request },
        );
        push_step(&mut commands, SearchCommand::Clear { buffer: GraphBuffer::Visited });
        push_step(
            &mut commands,
            SearchCommand::Copy {
                source: GraphBuffer::QueryStaging,
                target: GraphBuffer::Query,
                bytes: query_capacity * WORD_SIZE,
            },
        );
        push_step(
            &mut commands,
            SearchCommand::Copy {
                source: GraphBuffer::PredicateStaging,
                target: GraphBuffer::Predicate,
                bytes: word_bytes,
            },
        );
        push_step(
            &mut commands,
            SearchCommand::Copy {
                source: GraphBuffer::DeletedStaging,
                target: GraphBuffer::Deleted,
                bytes: word_bytes,
            },
        );
        push_step(
            &mut commands,
            SearchCommand::Copy {
                source: GraphBuffer::RequestStaging,
                target: GraphBuffer::Request,
                bytes: REQUEST_WORDS * WORD_SIZE,
            },
        );
        let uploaded = buffer_list(
            &[
                GraphBuffer::Query,
                GraphBuffer::Predicate,
                GraphBuffer::Deleted,
                GraphBuffer::Request,
            ],
        );
        push_step(&mut commands, SearchCommand::Barrier { buffers: uploaded });
        let bound = buffer_list(
            &[
                GraphBuffer::Query,
                GraphBuffer::Results,
                GraphBuffer::Predicate,
                GraphBuffer::Deleted,
                GraphBuffer::Request,
            ],
        );
        push_step(
            &mut commands,
            SearchCommand::Bind { kernel: Kernel::FilteredGraph, storage: bound },
        );
        push_step(&mut commands, SearchCommand::Dispatch { x: 1, y: 1 });
        let written = buffer_list(&[GraphBuffer::Results]);
        push_step(&mut commands, SearchCommand::Barrier { buffers: written });
        push_step(
            &mut commands,
            SearchCommand::Copy {
                source: GraphBuffer::Results,
                target: GraphBuffer::ResultStaging,
                bytes: top * SCORED_POINT_SIZE,
            },
        );
        push_step(&mut commands, SearchCommand::Run);
        proof {
            assert(padded_query@ =~= padded(query@, query_capacity as nat));
            assert(request@ =~= seq![entry, top as u32, self.point_count as u32, 0]);
            assert(uploaded@ =~= seq![
                GraphBuffer::Query,
                GraphBuffer::Predicate,
                GraphBuffer::Deleted,
                GraphBuffer::Request,
            ]);
            assert(bound@ =~= seq![
                GraphBuffer::Query,
                GraphBuffer::Results,
                GraphBuffer::Predicate,
                GraphBuffer::Deleted,
                GraphBuffer::Request,
            ]);
            assert(written@ =~= seq![GraphBuffer::Results]);
            assert(steps(commands@) =~= graph_search_steps(
                self@,
                query@,
                predicate,
                marked,
                entry,
                top,
            ));
        }
        Ok(commands)
    }

    /// Search the lowest layer from an entry point. Only points that the predicate selects and
    /// that are not deleted are seen. `run` performs the commands and reads scored points back.
    pub fn search<R: Fn(Vec<GraphCommand>, usize) -> OperationResult<Vec<ScoredPointOffset>>>(
        &self,
        query: &[VectorElementType],
        entry: PointOffsetType,
        included: &[PointOffsetType],
        deleted: Option<&[bool]>,
        top: usize,
        run: &R,
    ) -> (r: OperationResult<Vec<ScoredPointOffset>>)
        requires
            self.wf(),
            forall|commands: Vec<GraphCommand>, count: usize| #[trigger]
                run.requires((commands, count)),
        ensures
            graph_search_outcome(
                run,
                self@,
                query@,
                entry,
                included@,
                deletion_flags(deleted),
                top,
                r,
            ),
    {
        let commands = match self.plan_search(query, entry, included, deleted, top) {
            Ok(commands) => commands,
            Err(error) => {
                return Err(error);
            },
        };
        let ghost sent = commands;
        let reply = run(commands, top);
        proof {
            assert(run.ensures((sent, top), reply));
            assert(graph_searched(
                run,
                self@,
                query@,
                entry,
                included@,
                deletion_flags(deleted),
                top,
                reply,
            ));
        }
        match reply {
            Ok(points) => Ok(keep_present(&points)),
            Err(error) => Err(error),
        }
    }
}

/// The places that hold a point.
fn keep_present(points: &Vec<ScoredPointOffset>) -> (r: Vec<ScoredPointOffset>)
    ensures
        r@ == present(points@),
{
    let mut r: Vec<ScoredPointOffset> = Vec::new();
    let mut i: usize = 0;
    while i < points.len()
        invariant
            i <= points@.len(),
            r@ == present(points@.take(i as int)),
        decreases points@.len() - i,
    {
        let point = points[i];
        proof {
            assert(points@.take(i + 1).drop_last() =~= points@.take(i as int));
            assert(points@.take(i + 1).last() == point);
        }
        if point.idx != NO_POINT {
            r.push(point);
        }
        i = i + 1;
    }
    proof {
        assert(points@.take(i as int) =~= points@);
    }
    r
}

} // verus!
