//! Laws of exact search on a device: what a search finds does not depend on the buffers that it
//! reuses, on the shader that it uses, or on the searches before it.

use vstd::prelude::*;

use crate::arith::{lemma_ceil_div, min_int};
use crate::bits::packed_bit32;
use crate::error::{OperationError, OperationResult};
use crate::factorized_filter::list_views;
use crate::gpu::block_topk::{
    block_start, lemma_present_concat, lemma_top_of_top, present, tile_count, tile_of,
    BLOCK_TOPK_LIMIT, BLOCK_TOPK_TILE_CANDIDATES,
};
use crate::gpu::exact_context::{
    answers, batch_fault, batch_outcome, batch_results, buffer_id, can_run, is_submission_of,
    output_per_query, query_result, ran, resident_steps, scored_candidates, uses_block_topk,
    ExactBuffer, ExactCommand, ExactOutput, ExactReply, ExactSubmission, GpuExactSearchContext,
    ResidentBuffer,
};
use crate::gpu::exact_search::{
    candidates_prepared, found, only_result, queries_searched, query_searched, search_outcome,
    search_with_candidates, searched, uploaded, visibility_prepared, visibility_uploaded,
    ExactCacheView,
};
use crate::gpu::resident::{
    GpuResidentVisibilityCache, GpuResidentVisibilityEntry, ResidentCandidatesView,
    SharedCandidates,
};
use crate::gpu::search_commands::steps;
use crate::gpu::search_stats::{attempt_recorded, GpuExactSearchStats};
use crate::gpu::visibility::{hides_deleted, GpuVisibilitySnapshot};
use crate::storage::VectorElementType;
use crate::top_k::{
    first_k, lemma_insert, lemma_ranked, lemma_top_ranked_concat, ranked, ranked_insert,
    top_ranked,
};
use crate::types::{PointOffsetType, ScoreType, ScoredPointOffset};

verus! {

/// The points of a list that are not hidden.
pub open spec fn shown(
    points: Seq<ScoredPointOffset>,
    hidden: spec_fn(PointOffsetType) -> bool,
) -> Seq<ScoredPointOffset>
    decreases points.len(),
{
    if points.len() == 0 {
        Seq::empty()
    } else if hidden(points.last().idx) {
        shown(points.drop_last(), hidden)
    } else {
        shown(points.drop_last(), hidden).push(points.last())
    }
}

/// What is on a device and how it scores.
pub ghost struct DeviceModel {
    /// The words of the buffers that stay on the device, by their names.
    pub buffers: spec_fn(u64) -> Seq<u32>,
    /// The score of a point for a query.
    pub score: spec_fn(Seq<VectorElementType>, PointOffsetType) -> ScoreType,
    /// The score of a hidden point.
    pub hidden_score: ScoreType,
}

impl DeviceModel {
    /// The candidates with their scores for a query.
    pub open spec fn scored(
        self,
        query: Seq<VectorElementType>,
        candidates: Seq<PointOffsetType>,
    ) -> Seq<ScoredPointOffset> {
        Seq::new(
            candidates.len(),
            |i: int|
                ScoredPointOffset { idx: candidates[i], score: (self.score)(query, candidates[i]) },
        )
    }

    /// Hidden points rank behind all others.
    pub open spec fn hides_behind(self) -> bool {
        forall|query: Seq<VectorElementType>, point_id: PointOffsetType| #[trigger]
            (self.score)(query, point_id) > self.hidden_score
    }

    /// The points that the words of a buffer hide.
    pub open spec fn hidden(self, visibility: Option<u64>) -> spec_fn(PointOffsetType) -> bool {
        |point_id: PointOffsetType|
            match visibility {
                Some(id) => packed_bit32((self.buffers)(id), point_id as int),
                None => false,
            }
    }
}

/// The places of every tile hold the best points of the tile that are not hidden.
pub open spec fn holds_shown_tops(
    places: Seq<ScoredPointOffset>,
    points: Seq<ScoredPointOffset>,
    hidden: spec_fn(PointOffsetType) -> bool,
) -> bool {
    &&& places.len() == tile_count(points.len()) * BLOCK_TOPK_LIMIT
    &&& forall|tile: int|
        0 <= tile < tile_count(points.len()) ==> present(
            places.subrange(#[trigger] block_start(tile), block_start(tile + 1)),
        ) == top_ranked(shown(tile_of(points, tile), hidden), BLOCK_TOPK_LIMIT as nat)
}

/// The output for one query of a device that scores these candidates.
pub open spec fn output_follows(
    model: DeviceModel,
    output: ExactOutput,
    query: Seq<VectorElementType>,
    candidates: Seq<PointOffsetType>,
    hidden: spec_fn(PointOffsetType) -> bool,
    per_query: nat,
    q: int,
) -> bool {
    match output {
        ExactOutput::Scores(scores) => forall|i: int|
            0 <= i < candidates.len() ==> #[trigger] scores@[i] == (if hidden(candidates[i]) {
                model.hidden_score
            } else {
                (model.score)(query, candidates[i])
            }),
        ExactOutput::Blocks(places) => holds_shown_tops(
            places@.subrange(q * per_query, (q + 1) * per_query),
            model.scored(query, candidates),
            hidden,
        ),
    }
}

/// The device scores the candidates that it is given, or those in the buffer that it is told to
/// read, in every search that the context admits.
pub open spec fn follows_model<R: Fn(&ExactSubmission) -> OperationResult<ExactReply>>(
    run: &R,
    model: DeviceModel,
    context: GpuExactSearchContext,
) -> bool {
    forall|
        submission: &ExactSubmission,
        reply: ExactReply,
        queries: Seq<Seq<VectorElementType>>,
        candidates: Seq<PointOffsetType>,
        top: nat,
        resident: Option<u64>,
        visibility: Option<u64>,
        q: int,
    |
        #![trigger
            run.ensures((submission,), Ok(reply)),
            is_submission_of(
                *submission,
                queries,
                candidates,
                context.storage.vector_capacity as nat,
                top,
                resident,
                visibility,
            ),
            queries[q]]
        {
            &&& run.ensures((submission,), Ok(reply))
            &&& is_submission_of(
                *submission,
                queries,
                candidates,
                context.storage.vector_capacity as nat,
                top,
                resident,
                visibility,
            )
            &&& batch_fault(context, queries, candidates.len(), top, resident is Some) is None
            &&& candidates.len() > 0
            &&& top > 0
            &&& resident matches Some(id) ==> (model.buffers)(id) == candidates
            &&& 0 <= q < queries.len()
        } ==> output_follows(
            model,
            reply.output,
            queries[q],
            candidates,
            model.hidden(visibility),
            submission.output_count_per_query as nat,
            q,
        )
}

/// Points of two parts.
proof fn lemma_shown_concat(
    a: Seq<ScoredPointOffset>,
    b: Seq<ScoredPointOffset>,
    hidden: spec_fn(PointOffsetType) -> bool,
)
    ensures
        shown(a + b, hidden) == shown(a, hidden) + shown(b, hidden),
    decreases b.len(),
{
    if b.len() == 0 {
        assert(a + b =~= a);
        assert(shown(a, hidden) + shown(b, hidden) =~= shown(a, hidden));
    } else {
        assert((a + b).drop_last() =~= a + b.drop_last());
        lemma_shown_concat(a, b.drop_last(), hidden);
        assert(shown(a + b, hidden) =~= shown(a, hidden) + shown(b, hidden));
    }
}

/// The best points of the first tiles that are not hidden.
proof fn lemma_first_shown_tiles(
    places: Seq<ScoredPointOffset>,
    points: Seq<ScoredPointOffset>,
    hidden: spec_fn(PointOffsetType) -> bool,
    top: nat,
    n: int,
)
    requires
        holds_shown_tops(places, points, hidden),
        top <= BLOCK_TOPK_LIMIT,
        0 <= n <= tile_count(points.len()),
    ensures
        top_ranked(present(places.subrange(0, block_start(n))), top) == top_ranked(
            shown(
                points.take(min_int(n * BLOCK_TOPK_TILE_CANDIDATES, points.len() as int)),
                hidden,
            ),
            top,
        ),
    decreases n,
{
    let width = BLOCK_TOPK_TILE_CANDIDATES as int;
    let len = points.len() as int;
    lemma_ceil_div(len, width);
    if n == 0 {
        assert(places.subrange(0, block_start(0)) =~= Seq::empty());
        assert(points.take(0) =~= Seq::empty());
    } else {
        let m = n - 1;
        lemma_first_shown_tiles(places, points, hidden, top, m);
        let first = places.subrange(0, block_start(m));
        let last = places.subrange(block_start(m), block_start(n));
        assert(places.subrange(0, block_start(n)) =~= first + last);
        lemma_present_concat(first, last);
        let a = points.take(min_int(m * width, len));
        let b = tile_of(points, m);
        assert(m * width <= len);
        assert(points.take(min_int(n * width, len)) =~= a + b);
        lemma_shown_concat(a, b, hidden);
        lemma_top_ranked_concat(present(first), present(last), top);
        lemma_top_ranked_concat(shown(a, hidden), shown(b, hidden), top);
        assert(block_start(m + 1) == block_start(n));
        assert(present(last) == top_ranked(shown(b, hidden), BLOCK_TOPK_LIMIT as nat));
        lemma_top_of_top(shown(b, hidden), BLOCK_TOPK_LIMIT as nat, top);
    }
}

/// The best points of all tiles are the best of all points that are not hidden.
pub(crate) proof fn lemma_shown_tiles(
    places: Seq<ScoredPointOffset>,
    points: Seq<ScoredPointOffset>,
    hidden: spec_fn(PointOffsetType) -> bool,
    top: nat,
)
    requires
        holds_shown_tops(places, points, hidden),
        top <= BLOCK_TOPK_LIMIT,
    ensures
        top_ranked(present(places), top) == top_ranked(shown(points, hidden), top),
{
    let n = tile_count(points.len()) as int;
    lemma_ceil_div(points.len() as int, BLOCK_TOPK_TILE_CANDIDATES as int);
    lemma_first_shown_tiles(places, points, hidden, top, n);
    assert(places.subrange(0, block_start(n)) =~= places);
    assert(points.take(
        min_int(n * BLOCK_TOPK_TILE_CANDIDATES, points.len() as int),
    ) =~= points);
}

/// A point that is better than the last ones of a list goes in front of them.
proof fn lemma_insert_before(
    front: Seq<ScoredPointOffset>,
    back: Seq<ScoredPointOffset>,
    point: ScoredPointOffset,
)
    requires
        forall|i: int| 0 <= i < back.len() ==> (#[trigger] back[i]).score < point.score,
    ensures
        ranked_insert(front + back, point) == ranked_insert(front, point) + back,
    decreases back.len(),
{
    if back.len() == 0 {
        assert(front + back =~= front);
        assert(ranked_insert(front, point) + back =~= ranked_insert(front, point));
    } else {
        let rest = back.drop_last();
        assert(back[back.len() - 1].score < point.score);
        assert((front + back).drop_last() =~= front + rest);
        assert forall|i: int| 0 <= i < rest.len() implies (#[trigger] rest[i]).score
            < point.score by {
            assert(back[i].score < point.score);
        }
        lemma_insert_before(front, rest, point);
        assert(ranked_insert(front + back, point) =~= ranked_insert(front, point) + back);
    }
}

/// When hidden points have the lowest score, a ranking starts with the points that are not hidden.
proof fn lemma_shown_first(
    points: Seq<ScoredPointOffset>,
    hidden: spec_fn(PointOffsetType) -> bool,
    low: ScoreType,
)
    requires
        forall|i: int|
            0 <= i < points.len() ==> if hidden((#[trigger] points[i]).idx) {
                points[i].score == low
            } else {
                points[i].score > low
            },
    ensures
        shown(points, hidden).len() <= points.len(),
        ranked(points).take(shown(points, hidden).len() as int) == ranked(shown(points, hidden)),
        forall|i: int|
            shown(points, hidden).len() <= i < points.len() ==> (#[trigger] ranked(
                points,
            )[i]).score == low,
    decreases points.len(),
{
    let list = ranked(points);
    let kept = shown(points, hidden);
    lemma_ranked(points);
    lemma_ranked(kept);
    if points.len() == 0 {
        assert(list.take(0) =~= ranked(kept));
    } else {
        let rest = points.drop_last();
        let point = points.last();
        assert forall|i: int| 0 <= i < rest.len() implies if hidden((#[trigger] rest[i]).idx) {
            rest[i].score == low
        } else {
            rest[i].score > low
        } by {
            assert(points[i] == rest[i]);
        }
        lemma_shown_first(rest, hidden, low);
        lemma_ranked(rest);
        assert(points[points.len() - 1] == point);
        let before = ranked(rest);
        let m = shown(rest, hidden).len() as int;
        let front = before.take(m);
        let back = before.skip(m);
        assert(before =~= front + back);
        if hidden(point.idx) {
            if before.len() > 0 {
                let last = before[before.len() - 1];
                if m == before.len() {
                    lemma_ranked_above(rest, low);
                    assert(last.score >= low);
                } else {
                    assert(last.score == low);
                }
            }
            assert(list =~= before.push(point));
            assert(list.take(m) =~= front);
        } else {
            assert forall|i: int| 0 <= i < back.len() implies (#[trigger] back[i]).score
                < point.score by {
                assert(back[i] == before[m + i]);
            }
            lemma_insert_before(front, back, point);
            lemma_insert(front, point);
            assert(kept.drop_last() =~= shown(rest, hidden));
            assert(list.take(m + 1) =~= ranked_insert(front, point));
            assert forall|i: int| m + 1 <= i < points.len() implies (#[trigger] list[i]).score
                == low by {
                assert(list[i] == back[i - m - 1]);
                assert(back[i - m - 1] == before[i - 1]);
            }
        }
    }
}

/// No ranked point is below all points.
proof fn lemma_ranked_above(points: Seq<ScoredPointOffset>, low: ScoreType)
    requires
        forall|i: int| 0 <= i < points.len() ==> (#[trigger] points[i]).score >= low,
    ensures
        forall|i: int| 0 <= i < points.len() ==> (#[trigger] ranked(points)[i]).score >= low,
{
    broadcast use vstd::seq_lib::group_to_multiset_ensures;

    lemma_ranked(points);
    let list = ranked(points);
    assert forall|i: int| 0 <= i < points.len() implies (#[trigger] list[i]).score >= low by {
        assert(list.contains(list[i]));
        assert(list.to_multiset().count(list[i]) > 0);
        assert(points.contains(list[i]));
        let j = choose|j: int| 0 <= j < points.len() && points[j] == list[i];
        assert(points[j].score >= low);
    }
}

/// Lists that agree on all points that are not hidden show the same.
proof fn lemma_shown_alike(
    a: Seq<ScoredPointOffset>,
    b: Seq<ScoredPointOffset>,
    hidden: spec_fn(PointOffsetType) -> bool,
)
    requires
        a.len() == b.len(),
        forall|i: int|
            0 <= i < a.len() ==> (#[trigger] a[i]).idx == b[i].idx && (!hidden(a[i].idx) ==> a[i]
                == b[i]),
    ensures
        shown(a, hidden) == shown(b, hidden),
    decreases a.len(),
{
    if a.len() > 0 {
        let n = a.len() - 1;
        assert(a[n].idx == b[n].idx);
        assert forall|i: int| 0 <= i < n implies (#[trigger] a.drop_last()[i]).idx
            == b.drop_last()[i].idx && (!hidden(a.drop_last()[i].idx) ==> a.drop_last()[i]
            == b.drop_last()[i]) by {
            assert(a[i].idx == b[i].idx);
        }
        lemma_shown_alike(a.drop_last(), b.drop_last(), hidden);
    }
}

/// The result for a query is the best of the candidates that are not hidden.
proof fn lemma_output_is_exact(
    model: DeviceModel,
    output: ExactOutput,
    query: Seq<VectorElementType>,
    candidates: Seq<PointOffsetType>,
    hidden: spec_fn(PointOffsetType) -> bool,
    per_query: nat,
    top: nat,
    q: int,
)
    requires
        output_follows(model, output, query, candidates, hidden, per_query, q),
        model.hides_behind(),
        output is Blocks ==> top <= BLOCK_TOPK_LIMIT,
        top <= shown(model.scored(query, candidates), hidden).len() || forall|i: int|
            0 <= i < candidates.len() ==> !hidden(#[trigger] candidates[i]),
    ensures
        query_result(output, candidates, per_query, top, q) == top_ranked(
            shown(model.scored(query, candidates), hidden),
            top,
        ),
{
    let points = model.scored(query, candidates);
    match output {
        ExactOutput::Blocks(places) => {
            lemma_shown_tiles(
                places@.subrange(q * per_query, (q + 1) * per_query),
                points,
                hidden,
                top,
            );
        },
        ExactOutput::Scores(scores) => {
            let given = scored_candidates(candidates, scores@);
            assert forall|i: int| 0 <= i < given.len() implies (#[trigger] given[i]).idx
                == points[i].idx && (!hidden(given[i].idx) ==> given[i] == points[i]) by {
                assert(scores@[i] == given[i].score);
            }
            lemma_shown_alike(given, points, hidden);
            assert forall|i: int| 0 <= i < given.len() implies if hidden(
                (#[trigger] given[i]).idx,
            ) {
                given[i].score == model.hidden_score
            } else {
                given[i].score > model.hidden_score
            } by {
                assert(scores@[i] == given[i].score);
            }
            lemma_shown_first(given, hidden, model.hidden_score);
            lemma_ranked(given);
            lemma_ranked(shown(given, hidden));
            if top <= shown(points, hidden).len() {
                assert(first_k(ranked(given), top) =~= first_k(
                    ranked(shown(given, hidden)),
                    top,
                ));
            } else {
                assert forall|i: int| 0 <= i < given.len() implies !hidden(
                    (#[trigger] given[i]).idx,
                ) by {
                    assert(!hidden(candidates[i]));
                }
                lemma_all_shown(given, hidden);
            }
        },
    }
}

/// Where nothing is hidden, everything is shown.
proof fn lemma_all_shown(
    points: Seq<ScoredPointOffset>,
    hidden: spec_fn(PointOffsetType) -> bool,
)
    requires
        forall|i: int| 0 <= i < points.len() ==> !hidden((#[trigger] points[i]).idx),
    ensures
        shown(points, hidden) == points,
    decreases points.len(),
{
    if points.len() > 0 {
        assert forall|i: int| 0 <= i < points.len() - 1 implies !hidden(
            (#[trigger] points.drop_last()[i]).idx,
        ) by {
            assert(points[i] == points.drop_last()[i]);
        }
        lemma_all_shown(points.drop_last(), hidden);
        assert(!hidden(points[points.len() - 1].idx));
        assert(points.drop_last().push(points.last()) =~= points);
    } else {
        assert(shown(points, hidden) =~= points);
    }
}

/// The best candidates of a query that are not hidden.
pub open spec fn best_shown(
    model: DeviceModel,
    query: Seq<VectorElementType>,
    candidates: Seq<PointOffsetType>,
    hidden: spec_fn(PointOffsetType) -> bool,
    top: nat,
) -> Seq<ScoredPointOffset> {
    top_ranked(shown(model.scored(query, candidates), hidden), top)
}

/// At least as many candidates are shown as are wanted, or none of them is hidden.
pub open spec fn shows_enough(
    candidates: Seq<PointOffsetType>,
    hidden: spec_fn(PointOffsetType) -> bool,
    top: nat,
) -> bool {
    ||| top <= candidates.filter(|p: PointOffsetType| !hidden(p)).len()
    ||| forall|i: int| 0 <= i < candidates.len() ==> !hidden(#[trigger] candidates[i])
}

/// As many points are shown as there are candidates that are not hidden.
proof fn lemma_shown_len(
    model: DeviceModel,
    query: Seq<VectorElementType>,
    candidates: Seq<PointOffsetType>,
    hidden: spec_fn(PointOffsetType) -> bool,
)
    ensures
        shown(model.scored(query, candidates), hidden).len() == candidates.filter(
            |p: PointOffsetType| !hidden(p),
        ).len(),
    decreases candidates.len(),
{
    reveal(Seq::filter);
    if candidates.len() > 0 {
        lemma_shown_len(model, query, candidates.drop_last(), hidden);
        assert(model.scored(query, candidates).drop_last() =~= model.scored(
            query,
            candidates.drop_last(),
        ));
    }
}

/// A search of a context gives every query the best of the candidates that are not hidden, whether
/// it reads them from a buffer that holds them or uploads them.
pub proof fn lemma_context_is_exact<
    R: Fn(&ExactSubmission) -> OperationResult<ExactReply>,
    C: Fn() -> u64,
>(
    model: DeviceModel,
    context: GpuExactSearchContext,
    run: &R,
    clock: &C,
    queries: Seq<Seq<VectorElementType>>,
    candidates: Seq<PointOffsetType>,
    top: nat,
    resident: Option<ResidentBuffer>,
    visibility: Option<ResidentBuffer>,
    resident_candidate_ns: u64,
    resident_visibility_ns: u64,
    before: GpuExactSearchStats,
    after: GpuExactSearchStats,
    results: Vec<Vec<ScoredPointOffset>>,
)
    requires
        batch_outcome(
            context,
            run,
            clock,
            queries,
            candidates,
            top,
            resident,
            visibility,
            resident_candidate_ns,
            resident_visibility_ns,
            before,
            after,
            Ok(results),
        ),
        can_run(run),
        follows_model(run, model, context),
        model.hides_behind(),
        resident matches Some(buffer) ==> (model.buffers)(buffer.id) == candidates,
        shows_enough(candidates, model.hidden(buffer_id(visibility)), top),
    ensures
        results@.len() == queries.len(),
        forall|q: int|
            0 <= q < queries.len() ==> (#[trigger] results@[q])@ == best_shown(
                model,
                queries[q],
                candidates,
                model.hidden(buffer_id(visibility)),
                top,
            ),
{
    let hidden = model.hidden(buffer_id(visibility));
    let block_topk = uses_block_topk(candidates.len(), top, resident is Some);
    let per_query = output_per_query(candidates.len(), block_topk);
    if candidates.len() == 0 || top == 0 {
        assert forall|q: int| 0 <= q < queries.len() implies (#[trigger] results@[q])@
            == best_shown(model, queries[q], candidates, hidden, top) by {
            lemma_shown_len(model, queries[q], candidates, hidden);
            lemma_ranked(shown(model.scored(queries[q], candidates), hidden));
            if candidates.len() == 0 {
                assert(model.scored(queries[q], candidates).len() == 0);
            }
            assert(best_shown(model, queries[q], candidates, hidden, top) =~= Seq::empty());
            assert(results@[q]@ =~= Seq::empty());
        }
    } else {
        let reply = choose|reply: OperationResult<ExactReply>|
            {
                &&& #[trigger] ran(
                    run,
                    queries,
                    candidates,
                    context.storage.vector_capacity as nat,
                    top,
                    buffer_id(resident),
                    buffer_id(visibility),
                    reply,
                )
                &&& reply is Ok
                &&& batch_results(
                    results@,
                    reply->Ok_0.output,
                    candidates,
                    per_query,
                    top,
                    queries.len(),
                )
            };
        let reply = reply->Ok_0;
        let submission = choose|submission: &ExactSubmission|
            {
                &&& #[trigger] run.ensures((submission,), Ok(reply))
                &&& is_submission_of(
                    *submission,
                    queries,
                    candidates,
                    context.storage.vector_capacity as nat,
                    top,
                    buffer_id(resident),
                    buffer_id(visibility),
                )
            };
        assert(answers(*submission, reply.output));
        assert forall|q: int| 0 <= q < queries.len() implies (#[trigger] results@[q])@
            == best_shown(model, queries[q], candidates, hidden, top) by {
            assert(output_follows(
                model,
                reply.output,
                queries[q],
                candidates,
                hidden,
                submission.output_count_per_query as nat,
                q,
            ));
            lemma_shown_len(model, queries[q], candidates, hidden);
            lemma_output_is_exact(
                model,
                reply.output,
                queries[q],
                candidates,
                hidden,
                per_query,
                top,
                q,
            );
        }
    }
}

/// The device keeps what was put into its buffers.
pub open spec fn keeps_uploads<U: Fn(Vec<ExactCommand>) -> OperationResult<u64>>(
    upload: &U,
    model: DeviceModel,
) -> bool {
    forall|
        commands: Vec<ExactCommand>,
        id: u64,
        label: Seq<char>,
        staging: ExactBuffer,
        words: Seq<u32>,
    |
        #![trigger upload.ensures((commands,), Ok(id)), resident_steps(label, staging, words)]
        upload.ensures((commands,), Ok(id)) && steps(commands@) == resident_steps(
            label,
            staging,
            words,
        ) ==> (model.buffers)(id) == words
}

/// What the addresses of lists and the generations of deletions stand for.
pub ghost struct Identities {
    /// The list that lives at an address.
    pub lists: spec_fn(usize) -> Seq<PointOffsetType>,
    /// The deletion flags of a generation of this many points.
    pub deletions: spec_fn(u64, usize) -> Seq<bool>,
}

/// Every known address holds the list that lives there, in the cache and on the device.
pub open spec fn knows_lists(
    cache: ResidentCandidatesView,
    model: DeviceModel,
    identities: Identities,
) -> bool {
    forall|address: usize| #[trigger]
        cache.entries.contains_key(address) ==> {
            &&& cache.entries[address].0 == (identities.lists)(address)
            &&& (model.buffers)(cache.entries[address].1) == (identities.lists)(address)
        }
}

/// The buffer of the known generation hides its deletions.
pub open spec fn knows_deletions(
    cache: GpuResidentVisibilityCache,
    model: DeviceModel,
    identities: Identities,
) -> bool {
    cache.entry matches Some(entry) ==> hides_deleted(
        (model.buffers)(entry.buffer),
        (identities.deletions)(entry.generation, entry.bit_len),
        entry.bit_len as int,
    )
}

/// The snapshot is that of its generation.
pub open spec fn is_of_generation(
    visibility: Option<GpuVisibilitySnapshot>,
    identities: Identities,
) -> bool {
    visibility matches Some(snapshot) ==> snapshot.deleted@ == (identities.deletions)(
        snapshot.generation,
        snapshot.point_count,
    )
}

/// The buffer that a search reads its candidates from holds the list that was asked for, whether it
/// was there before or not, and the cache still knows only lists that live at their addresses.
pub proof fn lemma_buffer_holds_candidates<U: Fn(Vec<ExactCommand>) -> OperationResult<u64>>(
    model: DeviceModel,
    identities: Identities,
    upload: &U,
    candidates: SharedCandidates,
    reuse: bool,
    before: ResidentCandidatesView,
    after: ResidentCandidatesView,
    r: OperationResult<Option<ResidentBuffer>>,
)
    requires
        candidates_prepared(upload, candidates, reuse, before, after, r),
        keeps_uploads(upload, model),
        knows_lists(before, model, identities),
        candidates.points@ == (identities.lists)(candidates.address),
    ensures
        knows_lists(after, model, identities),
        r matches Ok(Some(buffer)) ==> (model.buffers)(buffer.id) == candidates.points@,
{
    if reuse && !before.entries.contains_key(candidates.address) {
        let reply = choose|reply: OperationResult<u64>|
            {
                &&& #[trigger] uploaded(
                    upload,
                    "Resident exact filtered candidate IDs"@,
                    ExactBuffer::CandidateStaging,
                    candidates.points@,
                    reply,
                )
                &&& match reply {
                    Ok(id) => r == Ok::<Option<ResidentBuffer>, OperationError>(
                        Some(ResidentBuffer { id, hit: false }),
                    ) && after == before.remembered(candidates.address, candidates.points@, id),
                    Err(error) => r == Err::<Option<ResidentBuffer>, OperationError>(error)
                        && after == before,
                }
            };
        if reply is Ok {
            let id = reply->Ok_0;
            lemma_upload_kept(
                model,
                upload,
                "Resident exact filtered candidate IDs"@,
                ExactBuffer::CandidateStaging,
                candidates.points@,
                id,
            );
        }
    }
}

proof fn lemma_upload_kept<U: Fn(Vec<ExactCommand>) -> OperationResult<u64>>(
    model: DeviceModel,
    upload: &U,
    label: Seq<char>,
    staging: ExactBuffer,
    words: Seq<u32>,
    id: u64,
)
    requires
        keeps_uploads(upload, model),
        uploaded(upload, label, staging, words, Ok(id)),
    ensures
        (model.buffers)(id) == words,
{
    let commands = choose|commands: Vec<ExactCommand>|
        {
            &&& #[trigger] upload.ensures((commands,), Ok(id))
            &&& steps(commands@) == resident_steps(label, staging, words)
        };
    assert(steps(commands@) == resident_steps(label, staging, words));
}

/// The buffer that a search reads deletions from hides the deletions of its snapshot, whether it
/// was there before or not.
pub proof fn lemma_buffer_hides_deletions<U: Fn(Vec<ExactCommand>) -> OperationResult<u64>>(
    model: DeviceModel,
    identities: Identities,
    context: GpuExactSearchContext,
    upload: &U,
    visibility: Option<GpuVisibilitySnapshot>,
    before: GpuResidentVisibilityCache,
    after: GpuResidentVisibilityCache,
    r: OperationResult<Option<ResidentBuffer>>,
)
    requires
        visibility_prepared(context, upload, visibility, before, after, r),
        keeps_uploads(upload, model),
        knows_deletions(before, model, identities),
        is_of_generation(visibility, identities),
    ensures
        knows_deletions(after, model, identities),
        r matches Ok(buffer) ==> match visibility {
            None => buffer is None,
            Some(snapshot) => buffer is Some && hides_deleted(
                (model.buffers)(buffer->0.id),
                snapshot.deleted@,
                snapshot.point_count as int,
            ),
        },
{
    if visibility is Some {
        let snapshot = visibility->0;
        if snapshot.spec_is_valid() && before.spec_get(snapshot.generation, snapshot.point_count)
            is None {
            let (words, reply) = choose|words: Seq<u32>, reply: OperationResult<u64>|
                {
                    &&& hides_deleted(words, snapshot.deleted@, snapshot.point_count as int)
                    &&& #[trigger] visibility_uploaded(context, upload, words, reply)
                    &&& match reply {
                        Ok(id) => r == Ok::<Option<ResidentBuffer>, OperationError>(
                            Some(ResidentBuffer { id, hit: false }),
                        ) && after.entry == Some(
                            GpuResidentVisibilityEntry {
                                generation: snapshot.generation,
                                bit_len: snapshot.point_count,
                                buffer: id,
                            },
                        ),
                        Err(error) => r == Err::<Option<ResidentBuffer>, OperationError>(error)
                            && after == before,
                    }
                };
            if reply is Ok {
                lemma_upload_kept(
                    model,
                    upload,
                    "Resident exact filtered visibility"@,
                    ExactBuffer::VisibilityStaging,
                    words,
                    reply->Ok_0,
                );
            }
        }
    }
}

/// The points that a search must not give.
pub open spec fn deleted_points(
    visibility: Option<GpuVisibilitySnapshot>,
) -> spec_fn(PointOffsetType) -> bool {
    |point_id: PointOffsetType|
        match visibility {
            Some(snapshot) => point_id < snapshot.deleted@.len()
                && snapshot.deleted@[point_id as int],
            None => false,
        }
}

/// Every candidate is a point of the snapshot.
pub open spec fn covers(
    visibility: Option<GpuVisibilitySnapshot>,
    candidates: Seq<PointOffsetType>,
) -> bool {
    visibility matches Some(snapshot) ==> {
        &&& snapshot.deleted@.len() <= snapshot.point_count
        &&& forall|i: int|
            0 <= i < candidates.len() ==> #[trigger] candidates[i] < snapshot.point_count
    }
}

/// What hides the same candidates shows the same.
proof fn lemma_same_hidden(
    model: DeviceModel,
    query: Seq<VectorElementType>,
    candidates: Seq<PointOffsetType>,
    a: spec_fn(PointOffsetType) -> bool,
    b: spec_fn(PointOffsetType) -> bool,
)
    requires
        forall|i: int| 0 <= i < candidates.len() ==> a(#[trigger] candidates[i]) == b(candidates[i]),
    ensures
        shown(model.scored(query, candidates), a) == shown(model.scored(query, candidates), b),
        candidates.filter(|p: PointOffsetType| !a(p)).len() == candidates.filter(
            |p: PointOffsetType| !b(p),
        ).len(),
    decreases candidates.len(),
{
    lemma_shown_len(model, query, candidates, a);
    lemma_shown_len(model, query, candidates, b);
    if candidates.len() > 0 {
        let rest = candidates.drop_last();
        assert forall|i: int| 0 <= i < rest.len() implies a(#[trigger] rest[i]) == b(rest[i]) by {
            assert(candidates[i] == rest[i]);
        }
        lemma_same_hidden(model, query, rest, a, b);
        assert(a(candidates[candidates.len() - 1]) == b(candidates[candidates.len() - 1]));
        assert(model.scored(query, candidates).drop_last() =~= model.scored(query, rest));
    }
}

/// A search gives every query the best of the candidates that are not deleted. The result does not
/// depend on whether buffers are reused, nor on what earlier searches left on the device, and the
/// cache keeps knowing what is there.
pub proof fn lemma_search_is_exact<
    U: Fn(Vec<ExactCommand>) -> OperationResult<u64>,
    R: Fn(&ExactSubmission) -> OperationResult<ExactReply>,
    C: Fn() -> u64,
>(
    model: DeviceModel,
    identities: Identities,
    upload: &U,
    run: &R,
    clock: &C,
    queries: Seq<Seq<VectorElementType>>,
    candidates: SharedCandidates,
    top: nat,
    reuse: bool,
    visibility: Option<GpuVisibilitySnapshot>,
    before: ExactCacheView,
    after: ExactCacheView,
    results: Vec<Vec<ScoredPointOffset>>,
)
    requires
        search_outcome(
            upload,
            run,
            clock,
            queries,
            candidates,
            top,
            reuse,
            visibility,
            before,
            after,
            Ok(Some(results)),
        ),
        can_run(run),
        follows_model(run, model, before.contexts.last()),
        keeps_uploads(upload, model),
        model.hides_behind(),
        knows_lists(before.candidates, model, identities),
        knows_deletions(before.visibility, model, identities),
        candidates.points@ == (identities.lists)(candidates.address),
        is_of_generation(visibility, identities),
        covers(visibility, candidates.points@),
        shows_enough(candidates.points@, deleted_points(visibility), top),
    ensures
        knows_lists(after.candidates, model, identities),
        knows_deletions(after.visibility, model, identities),
        results@.len() == queries.len(),
        forall|q: int|
            0 <= q < queries.len() ==> (#[trigger] results@[q])@ == best_shown(
                model,
                queries[q],
                candidates.points@,
                deleted_points(visibility),
                top,
            ),
{
    let r = Ok::<Option<Vec<Vec<ScoredPointOffset>>>, OperationError>(Some(results));
    let points = candidates.points@;
    let prepared = choose|prepared: OperationResult<Option<ResidentBuffer>>|
        {
            &&& #[trigger] candidates_prepared(
                upload,
                candidates,
                reuse,
                before.candidates,
                after.candidates,
                prepared,
            )
            &&& prepared is Ok
            &&& search_with_candidates(
                upload,
                run,
                clock,
                queries,
                candidates,
                top,
                prepared->Ok_0,
                visibility,
                before,
                after,
                r,
            )
        };
    lemma_buffer_holds_candidates(
        model,
        identities,
        upload,
        candidates,
        reuse,
        before.candidates,
        after.candidates,
        prepared,
    );
    let resident = prepared->Ok_0;
    let masked = choose|masked: OperationResult<Option<ResidentBuffer>>|
        {
            &&& #[trigger] visibility_prepared(
                before.contexts.last(),
                upload,
                visibility,
                before.visibility,
                after.visibility,
                masked,
            )
            &&& masked is Ok
            &&& exists|candidate_ns: u64, visibility_ns: u64| #[trigger]
                searched(
                    before.contexts.last(),
                    run,
                    clock,
                    queries,
                    points,
                    top,
                    resident,
                    masked->Ok_0,
                    candidate_ns,
                    visibility_ns,
                    attempt_recorded(before.stats, true),
                    after.stats,
                    r,
                )
        };
    lemma_buffer_hides_deletions(
        model,
        identities,
        before.contexts.last(),
        upload,
        visibility,
        before.visibility,
        after.visibility,
        masked,
    );
    let mask = masked->Ok_0;
    let stats = attempt_recorded(before.stats, true);
    let (candidate_ns, visibility_ns) = choose|candidate_ns: u64, visibility_ns: u64| #[trigger]
        searched(
            before.contexts.last(),
            run,
            clock,
            queries,
            points,
            top,
            resident,
            mask,
            candidate_ns,
            visibility_ns,
            stats,
            after.stats,
            r,
        );
    let inner = choose|inner: OperationResult<Vec<Vec<ScoredPointOffset>>>|
        {
            &&& #[trigger] batch_outcome(
                before.contexts.last(),
                run,
                clock,
                queries,
                points,
                top,
                resident,
                mask,
                candidate_ns,
                visibility_ns,
                stats,
                after.stats,
                inner,
            )
            &&& found(inner, r)
        };
    assert(inner == Ok::<Vec<Vec<ScoredPointOffset>>, OperationError>(results));
    let hidden = model.hidden(buffer_id(mask));
    let deleted = deleted_points(visibility);
    assert forall|i: int| 0 <= i < points.len() implies hidden(#[trigger] points[i]) == deleted(
        points[i],
    ) by {
        if visibility is Some {
            let snapshot = visibility->0;
            let words = (model.buffers)(mask->0.id);
            lemma_ceil_div(snapshot.point_count as int, 32);
            assert(points[i] < snapshot.point_count);
            assert(packed_bit32(words, points[i] as int) == (points[i] < snapshot.deleted@.len()
                && snapshot.deleted@[points[i] as int]));
        }
    }
    lemma_same_hidden(model, Seq::empty(), points, hidden, deleted);
    assert(shows_enough(points, hidden, top)) by {
        if forall|i: int| 0 <= i < points.len() ==> !deleted(#[trigger] points[i]) {
            assert forall|i: int| 0 <= i < points.len() implies !hidden(#[trigger] points[i]) by {
                assert(!deleted(points[i]));
            }
        }
    }
    lemma_context_is_exact(
        model,
        before.contexts.last(),
        run,
        clock,
        queries,
        points,
        top,
        resident,
        mask,
        candidate_ns,
        visibility_ns,
        stats,
        after.stats,
        results,
    );
    assert forall|q: int| 0 <= q < queries.len() implies (#[trigger] results@[q])@ == best_shown(
        model,
        queries[q],
        points,
        deleted,
        top,
    ) by {
        lemma_same_hidden(model, queries[q], points, hidden, deleted);
    }
}

/// Two searches for the same find the same, whichever of them reuses buffers and whatever was on the
/// device before each.
pub proof fn lemma_reuse_makes_no_difference<
    U: Fn(Vec<ExactCommand>) -> OperationResult<u64>,
    R: Fn(&ExactSubmission) -> OperationResult<ExactReply>,
    C: Fn() -> u64,
>(
    model: DeviceModel,
    identities: Identities,
    upload: &U,
    run: &R,
    clock: &C,
    queries: Seq<Seq<VectorElementType>>,
    candidates: SharedCandidates,
    top: nat,
    visibility: Option<GpuVisibilitySnapshot>,
    reuse_a: bool,
    before_a: ExactCacheView,
    after_a: ExactCacheView,
    results_a: Vec<Vec<ScoredPointOffset>>,
    reuse_b: bool,
    before_b: ExactCacheView,
    after_b: ExactCacheView,
    results_b: Vec<Vec<ScoredPointOffset>>,
)
    requires
        search_outcome(
            upload,
            run,
            clock,
            queries,
            candidates,
            top,
            reuse_a,
            visibility,
            before_a,
            after_a,
            Ok(Some(results_a)),
        ),
        search_outcome(
            upload,
            run,
            clock,
            queries,
            candidates,
            top,
            reuse_b,
            visibility,
            before_b,
            after_b,
            Ok(Some(results_b)),
        ),
        can_run(run),
        follows_model(run, model, before_a.contexts.last()),
        follows_model(run, model, before_b.contexts.last()),
        keeps_uploads(upload, model),
        model.hides_behind(),
        knows_lists(before_a.candidates, model, identities),
        knows_lists(before_b.candidates, model, identities),
        knows_deletions(before_a.visibility, model, identities),
        knows_deletions(before_b.visibility, model, identities),
        candidates.points@ == (identities.lists)(candidates.address),
        is_of_generation(visibility, identities),
        covers(visibility, candidates.points@),
        shows_enough(candidates.points@, deleted_points(visibility), top),
    ensures
        list_views(results_a@) == list_views(results_b@),
{
    lemma_search_is_exact(
        model,
        identities,
        upload,
        run,
        clock,
        queries,
        candidates,
        top,
        reuse_a,
        visibility,
        before_a,
        after_a,
        results_a,
    );
    lemma_search_is_exact(
        model,
        identities,
        upload,
        run,
        clock,
        queries,
        candidates,
        top,
        reuse_b,
        visibility,
        before_b,
        after_b,
        results_b,
    );
    assert(list_views(results_a@) =~= list_views(results_b@)) by {
        assert forall|q: int| 0 <= q < queries.len() implies list_views(results_a@)[q]
            == list_views(results_b@)[q] by {
            assert(results_a@[q]@ == results_b@[q]@);
        }
    }
}

/// A search of the cache gives every query the best of its candidates that are not deleted. There is
/// no answer only when every context is in use.
pub proof fn lemma_queries_get_their_best<
    U: Fn(Vec<ExactCommand>) -> OperationResult<u64>,
    R: Fn(&ExactSubmission) -> OperationResult<ExactReply>,
    C: Fn() -> u64,
>(
    model: DeviceModel,
    identities: Identities,
    upload: &U,
    run: &R,
    clock: &C,
    queries: Seq<Seq<VectorElementType>>,
    candidates: SharedCandidates,
    top: nat,
    reuse: bool,
    visibility: Option<GpuVisibilitySnapshot>,
    before: ExactCacheView,
    after: ExactCacheView,
    r: OperationResult<Option<Vec<Vec<ScoredPointOffset>>>>,
)
    requires
        queries_searched(
            upload,
            run,
            clock,
            queries,
            candidates,
            top,
            reuse,
            visibility,
            before,
            after,
            r,
        ),
        can_run(run),
        before.contexts.len() > 0 ==> follows_model(run, model, before.contexts.last()),
        keeps_uploads(upload, model),
        model.hides_behind(),
        knows_lists(before.candidates, model, identities),
        knows_deletions(before.visibility, model, identities),
        candidates.points@ == (identities.lists)(candidates.address),
        is_of_generation(visibility, identities),
        covers(visibility, candidates.points@),
        shows_enough(candidates.points@, deleted_points(visibility), top),
    ensures
        r matches Ok(None) <==> before.contexts.len() == 0,
        r matches Ok(Some(results)) ==> results@.len() == queries.len() && forall|q: int|
            0 <= q < queries.len() ==> (#[trigger] results@[q])@ == best_shown(
                model,
                queries[q],
                candidates.points@,
                deleted_points(visibility),
                top,
            ),
        names_no_state(visibility) && before.contexts.len() > 0 ==> r is Err,
{
    if r is Ok && r->Ok_0 is Some {
        lemma_search_is_exact(
            model,
            identities,
            upload,
            run,
            clock,
            queries,
            candidates,
            top,
            reuse,
            visibility,
            before,
            after,
            r->Ok_0->Some_0,
        );
    }
}

/// The deletions have no name, or there are none to speak of.
pub open spec fn names_no_state(visibility: Option<GpuVisibilitySnapshot>) -> bool {
    visibility matches Some(snapshot) && (snapshot.generation == 0 || snapshot.point_count == 0
        || snapshot.deleted@.len() > snapshot.point_count)
}

/// A search for one query gives it the best of its candidates that are not deleted. There is no answer
/// only when every context is in use.
pub proof fn lemma_query_gets_its_best<
    U: Fn(Vec<ExactCommand>) -> OperationResult<u64>,
    R: Fn(&ExactSubmission) -> OperationResult<ExactReply>,
    C: Fn() -> u64,
>(
    model: DeviceModel,
    identities: Identities,
    upload: &U,
    run: &R,
    clock: &C,
    query: Seq<VectorElementType>,
    candidates: SharedCandidates,
    top: nat,
    reuse: bool,
    visibility: Option<GpuVisibilitySnapshot>,
    before: ExactCacheView,
    after: ExactCacheView,
    r: OperationResult<Option<Vec<ScoredPointOffset>>>,
)
    requires
        query_searched(
            upload,
            run,
            clock,
            query,
            candidates,
            top,
            reuse,
            visibility,
            before,
            after,
            r,
        ),
        can_run(run),
        before.contexts.len() > 0 ==> follows_model(run, model, before.contexts.last()),
        keeps_uploads(upload, model),
        model.hides_behind(),
        knows_lists(before.candidates, model, identities),
        knows_deletions(before.visibility, model, identities),
        candidates.points@ == (identities.lists)(candidates.address),
        is_of_generation(visibility, identities),
        covers(visibility, candidates.points@),
        shows_enough(candidates.points@, deleted_points(visibility), top),
    ensures
        r matches Ok(None) <==> before.contexts.len() == 0,
        r matches Ok(Some(points)) ==> points@ == best_shown(
            model,
            query,
            candidates.points@,
            deleted_points(visibility),
            top,
        ),
        names_no_state(visibility) && before.contexts.len() > 0 ==> r is Err,
{
    if before.contexts.len() > 0 {
        let batch = choose|batch: OperationResult<Option<Vec<Vec<ScoredPointOffset>>>>|
            {
                &&& #[trigger] search_outcome(
                    upload,
                    run,
                    clock,
                    seq![query],
                    candidates,
                    top,
                    reuse,
                    visibility,
                    before,
                    after,
                    batch,
                )
                &&& only_result(batch, r)
            };
        lemma_queries_get_their_best(
            model,
            identities,
            upload,
            run,
            clock,
            seq![query],
            candidates,
            top,
            reuse,
            visibility,
            before,
            after,
            batch,
        );
        if batch is Ok && batch->Ok_0 is Some {
            let results = batch->Ok_0->Some_0;
            assert(results@.len() == 1);
            assert(results@.last() == results@[0]);
        }
    }
}

} // verus!
