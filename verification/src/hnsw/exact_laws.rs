//! What an exact search on the device finds.

use vstd::prelude::*;

use crate::arith::{ceil_div, lemma_ceil_div, min_int};
use crate::error::OperationError;
use crate::gpu::resident::SharedCandidates;
use crate::gpu::visibility::GpuVisibilitySnapshot;
use crate::hnsw::graph_search::{snapshot_of, MaybeResult, QueryDeletions, QueryResult};
use crate::hnsw::params::{GpuSearchConfig, SearchParams};
use crate::hnsw::plain_search::{
    all_points_searched, answered, answered_first, answered_one, concatenated, device_found,
    exact_outcome, exact_searched, live_points, points_searched, postprocessed, reuses_candidates,
    scored_address, scored_points, submission_of, submission_size, ExactSearchState, MaybeBatch,
};
use crate::hnsw::routing::BatchResult;
use crate::hnsw::routing_laws::Selection;
use crate::hnsw::search_laws::{hidden_by, in_list, lemma_lists, lists, seen};
use crate::storage::{QueryVector, VectorElementType};
use crate::types::{PointOffsetType, ScoredPointOffset};

verus! {

/// The best of the chosen points for the elements of a vector: as many as are asked for.
pub type BestPoints = spec_fn(Seq<VectorElementType>, Selection, usize) -> Seq<ScoredPointOffset>;

/// Scored points after they were scored again for a query.
pub type Rescoring = spec_fn(Seq<ScoredPointOffset>, QueryVector, usize) -> Seq<
    ScoredPointOffset,
>;

/// What is known of the listed points: deleted are those whose flag says so, as a vector or as a
/// point. A search may bring flags of its own for points; under a name they stand for both kinds.
/// Counters of zero mean that nothing is deleted.
pub open spec fn knows_listed(
    state: ExactSearchState,
    deletions: QueryDeletions,
    listed: Seq<PointOffsetType>,
    deleted: Selection,
) -> bool {
    let flags = match deletions.deleted_points {
        Some(flags) => flags@,
        None => state.deleted_points@,
    };
    forall|point_id: PointOffsetType|
        listed.contains(point_id) ==> {
            &&& #[trigger] deleted(point_id) == {
                ||| point_id < state.deleted_vectors@.len() && state.deleted_vectors@[point_id as int]
                ||| point_id >= flags.len()
                ||| flags[point_id as int]
            }
            &&& deletions.deleted_points is None && state.deleted_point_count == 0
                && state.deleted_vector_count == 0 ==> !deleted(point_id)
            &&& deletions.deleted_points is Some && deletions.generation is Some ==> deleted(
                point_id,
            ) == (point_id < flags.len() && flags[point_id as int])
        }
}

/// The device finds the best of the points that it is given and that are not hidden from it.
pub open spec fn finds_best(
    query: Seq<VectorElementType>,
    list: SharedCandidates,
    snapshot: Option<GpuVisibilitySnapshot>,
    top: usize,
    best: BestPoints,
    found: Seq<ScoredPointOffset>,
) -> bool {
    found == best(query, seen(in_list(list.points@), hidden_by(snapshot)), top)
}

/// The result that a query is owed.
pub open spec fn owed(
    vector: QueryVector,
    chosen: Selection,
    top: usize,
    best: BestPoints,
    rescoring: Rescoring,
    result: Seq<ScoredPointOffset>,
) -> bool {
    &&& vector is Nearest
    &&& vector->Nearest_0 is Dense
    &&& result == rescoring(best(vector->Nearest_0->Dense_0@, chosen, top), vector, top)
}

/// An exact search on the device answers every query with the best of the selected points that are
/// not deleted, scored again for that query, whether the device is told what is deleted or is given
/// the other points only, and however the queries are spread over submissions.
pub proof fn lemma_exact_search_finds_best<
    B: Fn() -> bool,
    O: Fn(&[VectorElementType], &SharedCandidates, usize, bool,
        Option<GpuVisibilitySnapshot>) -> MaybeResult,
    M: Fn(&[&[VectorElementType]], &SharedCandidates, usize, bool,
        Option<GpuVisibilitySnapshot>) -> MaybeBatch,
    P: Fn(Vec<ScoredPointOffset>, &QueryVector, usize) -> QueryResult,
    K: Fn() -> u64,
    A: Fn(usize, u64, u64, u64, u64, Option<bool>),
>(
    gpu: GpuSearchConfig,
    state: ExactSearchState,
    vectors: Seq<&QueryVector>,
    filtered: SharedCandidates,
    top: usize,
    params: Option<SearchParams>,
    deletions: QueryDeletions,
    predicate_ns: u64,
    filter_cache_hit: Option<bool>,
    ready: &B,
    search_one: &O,
    search_batch: &M,
    postprocess: &P,
    clock: &K,
    record: &A,
    deleted: Selection,
    best: BestPoints,
    rescoring: Rescoring,
    results: Vec<Vec<ScoredPointOffset>>,
)
    requires
        exact_searched(
            gpu,
            state,
            vectors,
            filtered,
            top,
            params,
            deletions,
            predicate_ns,
            filter_cache_hit,
            ready,
            search_one,
            search_batch,
            postprocess,
            clock,
            record,
            Ok(Some(results)),
        ),
        knows_listed(state, deletions, filtered.points@, deleted),
        forall|
            query: &[VectorElementType],
            list: &SharedCandidates,
            reuse: bool,
            snapshot: Option<GpuVisibilitySnapshot>,
            found: Vec<ScoredPointOffset>,
        | #[trigger]
            search_one.ensures((query, list, top, reuse, snapshot), Ok(Some(found)))
                ==> finds_best(query@, *list, snapshot, top, best, found@),
        forall|
            queries: &[&[VectorElementType]],
            list: &SharedCandidates,
            reuse: bool,
            snapshot: Option<GpuVisibilitySnapshot>,
            found: Vec<Vec<ScoredPointOffset>>,
        | #[trigger]
            search_batch.ensures((queries, list, top, reuse, snapshot), Ok(Some(found)))
                ==> found@.len() == queries@.len() && forall|q: int|
                0 <= q < queries@.len() ==> finds_best(
                    queries@[q]@,
                    *list,
                    snapshot,
                    top,
                    best,
                    (#[trigger] found@[q])@,
                ),
        forall|points: Vec<ScoredPointOffset>, v: &QueryVector, found: Vec<ScoredPointOffset>|
            #[trigger]
            postprocess.ensures((points, v, top), Ok(found)) ==> found@ == rescoring(
                points@,
                *v,
                top,
            ),
    ensures
        results@.len() == vectors.len(),
        forall|i: int|
            0 <= i < vectors.len() ==> owed(
                *vectors[i],
                seen(in_list(filtered.points@), deleted),
                top,
                best,
                rescoring,
                (#[trigger] results@[i])@,
            ),
        gpu.enabled,
        params is Some && params->0.exact,
{
    let r: MaybeBatch = Ok(Some(results));
    let reuse = reuses_candidates(state, deletions, filter_cache_hit);
    let candidates = scored_points(state, deletions, filter_cache_hit, filtered.points@);
    let address = scored_address(state, deletions, filter_cache_hit, filtered.address);
    let snapshot = snapshot_of(deletions, state.total_vector_count);
    let chosen = seen(in_list(filtered.points@), deleted);
    let found = choose|found: MaybeBatch|
        {
            &&& #[trigger] device_found(
                search_one,
                search_batch,
                vectors,
                candidates,
                address,
                top,
                reuse,
                snapshot,
                found,
            )
            &&& exact_outcome(
                postprocess,
                clock,
                record,
                vectors,
                top,
                predicate_ns,
                filter_cache_hit,
                found,
                r,
            )
        };
    lemma_scored_are_seen(state, deletions, filter_cache_hit, filtered.points@, deleted);
    let lists = found->Ok_0->Some_0;
    let good = |i: int| best(vectors[i]->Nearest_0->Dense_0@, chosen, top);
    if vectors.len() == 1 {
        let reply = choose|reply: MaybeResult|
            {
                &&& #[trigger] answered_one(
                    search_one,
                    vectors[0],
                    candidates,
                    address,
                    top,
                    reuse,
                    snapshot,
                    reply,
                )
                &&& match reply {
                    Ok(Some(points)) => found matches Ok(Some(results)) && results@ == seq![
                        points,
                    ],
                    Ok(None) => found matches Ok(None),
                    Err(error) => found == Err::<
                        Option<Vec<Vec<ScoredPointOffset>>>,
                        OperationError,
                    >(error),
                }
            };
        assert(lists@.len() == 1);
        assert(lists@[0]@ == good(0));
    } else {
        let size = submission_size(candidates.len(), top as nat, reuse);
        let replies = choose|replies: Seq<Vec<Vec<ScoredPointOffset>>>|
            {
                &&& #[trigger] answered_first(
                    search_batch,
                    vectors,
                    candidates,
                    address,
                    top,
                    reuse,
                    snapshot,
                    replies,
                )
                &&& replies.len() == ceil_div(vectors.len() as int, size as int)
                &&& lists@ == concatenated(replies)
            };
        assert forall|k: int| 0 <= k < replies.len() implies is_part(
            #[trigger] replies[k],
            k,
            size,
            vectors.len(),
            good,
        ) by {
            lemma_part(k, size as int, vectors.len() as int);
            let part = submission_of(vectors, size, k);
            let reply: MaybeBatch = Ok(Some(replies[k]));
            assert(answered(
                search_batch,
                part,
                candidates,
                address,
                top,
                reuse,
                snapshot,
                reply,
            ));
            assert(part.len() == min_int((k + 1) * size, vectors.len() as int) - k * size);
            assert(replies[k]@.len() == part.len());
            assert forall|j: int| 0 <= j < part.len() implies (#[trigger] replies[k]@[j])@ == good(
                k * size + j,
            ) by {
                assert(part[j] == vectors[k * size + j]);
            }
        }
        lemma_parts(replies, size, vectors.len(), good);
        lemma_ceil_div(vectors.len() as int, size as int);
        assert(lists@.len() == vectors.len());
    }
    assert forall|i: int| 0 <= i < vectors.len() implies owed(
        *vectors[i],
        chosen,
        top,
        best,
        rescoring,
        (#[trigger] results@[i])@,
    ) by {
        assert(lists@[i]@ == good(i));
    }
}

/// The points that are scored and not hidden are the listed points that are not deleted.
proof fn lemma_scored_are_seen(
    state: ExactSearchState,
    deletions: QueryDeletions,
    hit: Option<bool>,
    listed: Seq<PointOffsetType>,
    deleted: Selection,
)
    requires
        knows_listed(state, deletions, listed, deleted),
    ensures
        seen(
            in_list(scored_points(state, deletions, hit, listed)),
            hidden_by(snapshot_of(deletions, state.total_vector_count)),
        ) == seen(in_list(listed), deleted),
{
    let scored = scored_points(state, deletions, hit, listed);
    let snapshot = snapshot_of(deletions, state.total_vector_count);
    let flags = match deletions.deleted_points {
        Some(flags) => flags@,
        None => state.deleted_points@,
    };
    let a = seen(in_list(scored), hidden_by(snapshot));
    let b = seen(in_list(listed), deleted);
    assert forall|point_id: PointOffsetType| #[trigger] a(point_id) == b(point_id) by {
        let d = deleted(point_id);
        if !reuses_candidates(state, deletions, hit) {
            lemma_live_are_listed(listed, state.deleted_vectors@, flags, point_id);
        }
    }
    assert(a =~= b);
}

/// The points that stay are those that are not deleted.
proof fn lemma_live_are_listed(
    listed: Seq<PointOffsetType>,
    deleted_vectors: Seq<bool>,
    flags: Seq<bool>,
    point_id: PointOffsetType,
)
    ensures
        live_points(listed, deleted_vectors, flags).contains(point_id) == (listed.contains(
            point_id,
        ) && !(point_id < deleted_vectors.len() && deleted_vectors[point_id as int]) && point_id
            < flags.len() && !flags[point_id as int]),
    decreases listed.len(),
{
    let kept = live_points(listed, deleted_vectors, flags);
    if listed.len() > 0 {
        let shorter = listed.drop_last();
        let previous = live_points(shorter, deleted_vectors, flags);
        lemma_live_are_listed(shorter, deleted_vectors, flags, point_id);
        assert(listed =~= shorter.push(listed.last()));
        lemma_contains_push(shorter, listed.last(), point_id);
        lemma_contains_push(previous, listed.last(), point_id);
    }
}

/// What a longer list holds.
proof fn lemma_contains_push(
    list: Seq<PointOffsetType>,
    last: PointOffsetType,
    point_id: PointOffsetType,
)
    ensures
        list.push(last).contains(point_id) == (list.contains(point_id) || point_id == last),
{
    let longer = list.push(last);
    if list.contains(point_id) {
        let i = choose|i: int| 0 <= i < list.len() && list[i] == point_id;
        assert(longer[i] == point_id);
    }
    if point_id == last {
        assert(longer[list.len() as int] == point_id);
    }
    if longer.contains(point_id) && point_id != last {
        let i = choose|i: int| 0 <= i < longer.len() && longer[i] == point_id;
        assert(list[i] == point_id);
    }
}

/// A part of a list of `n` results that is cut into parts of `size`.
spec fn is_part(
    part: Vec<Vec<ScoredPointOffset>>,
    k: int,
    size: nat,
    n: nat,
    good: spec_fn(int) -> Seq<ScoredPointOffset>,
) -> bool {
    &&& part@.len() == min_int((k + 1) * size, n as int) - k * size
    &&& forall|j: int| 0 <= j < part@.len() ==> (#[trigger] part@[j])@ == good(k * size + j)
}

/// Where a part lies.
proof fn lemma_part(k: int, size: int, n: int)
    requires
        0 <= k < ceil_div(n, size),
        size > 0,
        n >= 0,
    ensures
        0 <= k * size < n,
        (k + 1) * size == k * size + size,
{
    lemma_ceil_div(n, size);
    let parts = ceil_div(n, size);
    assert(k * size <= (parts - 1) * size) by (nonlinear_arith)
        requires
            k <= parts - 1,
            size > 0,
    ;
    assert(0 <= k * size) by (nonlinear_arith)
        requires
            0 <= k,
            size > 0,
    ;
    assert((k + 1) * size == k * size + size) by (nonlinear_arith);
}

/// The parts of a list, put together.
proof fn lemma_parts(
    parts: Seq<Vec<Vec<ScoredPointOffset>>>,
    size: nat,
    n: nat,
    good: spec_fn(int) -> Seq<ScoredPointOffset>,
)
    requires
        size > 0,
        parts.len() <= ceil_div(n as int, size as int),
        forall|k: int|
            0 <= k < parts.len() ==> is_part(#[trigger] parts[k], k, size, n, good),
    ensures
        concatenated(parts).len() == min_int((parts.len() * size) as int, n as int),
        forall|i: int|
            0 <= i < concatenated(parts).len() ==> (#[trigger] concatenated(parts)[i])@ == good(i),
    decreases parts.len(),
{
    if parts.len() > 0 {
        let shorter = parts.drop_last();
        let last = parts.len() - 1;
        lemma_part(last, size as int, n as int);
        assert forall|k: int| 0 <= k < shorter.len() implies is_part(
            #[trigger] shorter[k],
            k,
            size,
            n,
            good,
        ) by {
            assert(shorter[k] == parts[k]);
        }
        lemma_parts(shorter, size, n, good);
        let before = concatenated(shorter);
        assert(is_part(parts[last], last, size, n, good));
        assert forall|i: int| 0 <= i < concatenated(parts).len() implies (#[trigger] concatenated(
            parts,
        )[i])@ == good(i) by {
            if i < before.len() {
                assert(concatenated(parts)[i] == before[i]);
            } else {
                let j = i - before.len();
                assert(concatenated(parts)[i] == parts[last]@[j]);
            }
        }
    } else {
        assert(concatenated(parts) =~= Seq::empty());
    }
}

/// The best of the chosen points for a query: as many as are asked for.
pub type BestFor = spec_fn(QueryVector, Selection, usize) -> Seq<ScoredPointOffset>;

/// Every list is the best of the chosen points for its own query.
pub open spec fn peeks_best(
    vectors: Seq<&QueryVector>,
    chosen: Selection,
    count: usize,
    best: BestFor,
    found: BatchResult,
) -> bool {
    found matches Ok(lists) ==> {
        &&& lists@.len() == vectors.len()
        &&& forall|i: int|
            0 <= i < vectors.len() ==> (#[trigger] lists@[i])@ == best(*vectors[i], chosen, count)
    }
}

/// Every query has the best of the chosen points, scored again for it.
pub open spec fn each_rescored(
    vectors: Seq<&QueryVector>,
    chosen: Selection,
    count: usize,
    top: usize,
    best: BestFor,
    rescoring: Rescoring,
    r: BatchResult,
) -> bool {
    r matches Ok(results) ==> {
        &&& results@.len() == vectors.len()
        &&& forall|i: int|
            0 <= i < vectors.len() ==> (#[trigger] results@[i])@ == rescoring(
                best(*vectors[i], chosen, count),
                *vectors[i],
                top,
            )
    }
}

/// Scoring points without the device gives every query the best of these points, scored again for
/// that query.
pub proof fn lemma_points_are_scored<
    T: Fn(&[&QueryVector], &[PointOffsetType], usize) -> BatchResult,
    P: Fn(Vec<ScoredPointOffset>, &QueryVector, usize) -> QueryResult,
>(
    peek: &T,
    postprocess: &P,
    vectors: &[&QueryVector],
    points: &[PointOffsetType],
    oversampled_top: usize,
    top: usize,
    best: BestFor,
    rescoring: Rescoring,
    r: BatchResult,
)
    requires
        points_searched(peek, postprocess, vectors, points, oversampled_top, top, r),
        forall|list: &[PointOffsetType], found: BatchResult| #[trigger]
            peek.ensures((vectors, list, oversampled_top), found) ==> peeks_best(
                vectors@,
                in_list(list@),
                oversampled_top,
                best,
                found,
            ),
        forall|list: Vec<ScoredPointOffset>, v: &QueryVector, found: Vec<ScoredPointOffset>|
            #[trigger]
            postprocess.ensures((list, v, top), Ok(found)) ==> found@ == rescoring(list@, *v, top),
    ensures
        each_rescored(
            vectors@,
            in_list(points@),
            oversampled_top,
            top,
            best,
            rescoring,
            r,
        ),
{
}

/// Scoring all points without the device gives every query the best of all points that there are,
/// scored again for that query.
pub proof fn lemma_all_points_are_scored<
    I: Fn() -> Vec<PointOffsetType>,
    T: Fn(&[&QueryVector], &[PointOffsetType], usize) -> BatchResult,
    P: Fn(Vec<ScoredPointOffset>, &QueryVector, usize) -> QueryResult,
>(
    points: &I,
    peek: &T,
    postprocess: &P,
    vectors: &[&QueryVector],
    oversampled_top: usize,
    top: usize,
    there: Selection,
    best: BestFor,
    rescoring: Rescoring,
    r: BatchResult,
)
    requires
        all_points_searched(points, peek, postprocess, vectors, oversampled_top, top, r),
        forall|all: Vec<PointOffsetType>| #[trigger] points.ensures((), all) ==> lists(all@, there),
        forall|list: &[PointOffsetType], found: BatchResult| #[trigger]
            peek.ensures((vectors, list, oversampled_top), found) ==> peeks_best(
                vectors@,
                in_list(list@),
                oversampled_top,
                best,
                found,
            ),
        forall|list: Vec<ScoredPointOffset>, v: &QueryVector, found: Vec<ScoredPointOffset>|
            #[trigger]
            postprocess.ensures((list, v, top), Ok(found)) ==> found@ == rescoring(list@, *v, top),
    ensures
        each_rescored(vectors@, there, oversampled_top, top, best, rescoring, r),
{
    let (all, list, found) = choose|
        all: Vec<PointOffsetType>,
        list: &[PointOffsetType],
        found: BatchResult,
    |
        {
            &&& #[trigger] points.ensures((), all)
            &&& #[trigger] peek.ensures((vectors, list, oversampled_top), found)
            &&& list@ == all@
            &&& match found {
                Ok(lists) => postprocessed(postprocess, vectors@, top, lists@, r),
                Err(error) => r == Err::<Vec<Vec<ScoredPointOffset>>, OperationError>(error),
            }
        };
    lemma_lists(all@, there);
    assert(peeks_best(vectors@, in_list(list@), oversampled_top, best, found));
}

} // verus!
