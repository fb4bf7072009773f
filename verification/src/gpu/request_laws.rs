//! Which requests devices serve and which they refuse.

use vstd::prelude::*;

use crate::error::OperationResult;
use crate::gpu::exact_context::{
    batch_outcome, ExactReply, ExactSubmission, GpuExactSearchContext, ResidentBuffer,
};
use crate::gpu::filtered_graph_search::{graph_search_outcome, GraphCommand, GraphContextView};
use crate::gpu::heterogeneous_exact_batch::{
    batch_searched, is_valid_request, BatchReply, BatchSubmission,
    GpuHeterogeneousExactBatchContext, HeterogeneousExactTimings,
};
use crate::gpu::search_stats::GpuExactSearchStats;
use crate::storage::VectorElementType;
use crate::types::{PointOffsetType, ScoredPointOffset};

verus! {

/// Every vector has this many elements.
pub open spec fn all_of_length(queries: Seq<Seq<VectorElementType>>, dim: usize) -> bool {
    forall|i: int| 0 <= i < queries.len() ==> (#[trigger] queries[i]).len() == dim
}

/// An exact search that fits its context is served when the device serves it: one to four vectors of
/// the right length, no more candidates than there is room for, and for more than one vector a buffer
/// that holds at least 65536 candidates of which no more than 16 are wanted. A search that does not fit
/// is refused, and nothing is counted of it.
pub proof fn lemma_fitting_searches_are_served<
    R: Fn(&ExactSubmission) -> OperationResult<ExactReply>,
    C: Fn() -> u64,
>(
    context: GpuExactSearchContext,
    run: &R,
    clock: &C,
    queries: Seq<Seq<VectorElementType>>,
    candidates: Seq<PointOffsetType>,
    top: nat,
    resident: Option<ResidentBuffer>,
    visibility: Option<ResidentBuffer>,
    resident_candidate_ns: u64,
    resident_visibility_ns: u64,
    before: GpuExactSearchStats,
    after: GpuExactSearchStats,
    r: OperationResult<Vec<Vec<ScoredPointOffset>>>,
)
    requires
        batch_outcome(
            context,
            run,
            clock,
            queries,
            candidates,
            top,
            resident,
            visibility,
            resident_candidate_ns,
            resident_visibility_ns,
            before,
            after,
            r,
        ),
    ensures
        r is Ok ==> 1 <= queries.len() <= 4 && candidates.len() <= context.candidate_capacity
            && all_of_length(queries, context.storage.dim),
        r is Err ==> after == before,
        1 <= queries.len() <= 4 && candidates.len() <= context.candidate_capacity && all_of_length(
            queries,
            context.storage.dim,
        ) && (queries.len() == 1 || (resident is Some && candidates.len() >= 65536 && top
            <= 16)) && (forall|
            submission: &ExactSubmission,
            reply: OperationResult<ExactReply>,
        | #[trigger]
            run.ensures((submission,), reply) ==> reply is Ok) ==> r is Ok,
{
}

/// A batch that fits its context is served when the device serves it, and no other batch is: as many
/// vectors as lists, no more than there is room for, each of the right length and with candidates
/// that there is room for.
pub proof fn lemma_fitting_batches_are_served<
    R: Fn(&BatchSubmission, usize) -> OperationResult<BatchReply>,
    C: Fn() -> u64,
>(
    context: GpuHeterogeneousExactBatchContext,
    queries: Seq<Seq<VectorElementType>>,
    lists: Seq<Seq<PointOffsetType>>,
    top: nat,
    visibility: Option<u64>,
    run: &R,
    clock: &C,
    r: OperationResult<(Vec<Vec<ScoredPointOffset>>, HeterogeneousExactTimings)>,
)
    requires
        batch_searched(context, queries, lists, top, visibility, run, clock, r),
        queries.len() == lists.len(),
    ensures
        r is Ok ==> 1 <= lists.len() <= context.batch_capacity && 1 <= top <= 16
            && all_of_length(queries, context.storage.dim) && all_fit(
            lists,
            context.candidate_capacity,
        ),
        1 <= lists.len() <= context.batch_capacity && 1 <= top <= 16 && all_of_length(
            queries,
            context.storage.dim,
        ) && all_fit(lists, context.candidate_capacity) && (forall|
            submission: &BatchSubmission,
            count: usize,
            reply: OperationResult<BatchReply>,
        | #[trigger]
            run.ensures((submission, count), reply) ==> reply is Ok) ==> r is Ok,
{
    if r is Ok {
        assert forall|i: int| 0 <= i < queries.len() implies (#[trigger] queries[i]).len()
            == context.storage.dim by {
            assert(is_valid_request(context, queries, lists, i));
        }
        assert forall|i: int| 0 <= i < lists.len() implies 0 < (#[trigger] lists[i]).len()
            <= context.candidate_capacity by {
            assert(is_valid_request(context, queries, lists, i));
        }
    }
}

/// Every list has candidates, but no more than there is room for.
pub open spec fn all_fit(lists: Seq<Seq<PointOffsetType>>, capacity: usize) -> bool {
    forall|i: int| 0 <= i < lists.len() ==> 0 < (#[trigger] lists[i]).len() <= capacity
}

/// A graph search that fits its context is served when the device serves it, and no other one is: the
/// vector fits, results are wanted but no more than are kept, and the search starts at a point that it
/// may see among points of the graph.
pub proof fn lemma_fitting_graph_searches_are_served<
    R: Fn(Vec<GraphCommand>, usize) -> OperationResult<Vec<ScoredPointOffset>>,
>(
    run: &R,
    context: GraphContextView,
    query: Seq<VectorElementType>,
    entry: PointOffsetType,
    included: Seq<PointOffsetType>,
    deleted: Option<Seq<bool>>,
    top: usize,
    r: OperationResult<Vec<ScoredPointOffset>>,
)
    requires
        graph_search_outcome(run, context, query, entry, included, deleted, top, r),
        deleted matches Some(flags) ==> flags.len() <= context.point_count,
    ensures
        r is Ok ==> fits_graph(context, query, entry, included, deleted, top),
        fits_graph(context, query, entry, included, deleted, top) && (forall|
            commands: Vec<GraphCommand>,
            count: usize,
            reply: OperationResult<Vec<ScoredPointOffset>>,
        | #[trigger]
            run.ensures((commands, count), reply) ==> reply is Ok) ==> r is Ok,
{
}

/// The graph search fits its context.
pub open spec fn fits_graph(
    context: GraphContextView,
    query: Seq<VectorElementType>,
    entry: PointOffsetType,
    included: Seq<PointOffsetType>,
    deleted: Option<Seq<bool>>,
    top: usize,
) -> bool {
    &&& query.len() <= context.storage.vector_capacity
    &&& 1 <= top <= context.ef
    &&& forall|k: int| 0 <= k < included.len() ==> #[trigger] included[k] < context.point_count
    &&& included.contains(entry)
    &&& deleted matches Some(flags) ==> entry < flags.len() ==> !flags[entry as int]
}

} // verus!
