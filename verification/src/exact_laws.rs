//! Laws of candidate-major exact search: what its plans and results depend on, and what they do not
//! depend on.

use vstd::prelude::*;
use vstd::relations::{sorted_by, total_ordering};

use crate::arith::min_int;
use crate::bits::{bit64, lemma_equal64, lemma_nonzero64, lemma_or64, lemma_zero64};
use crate::factorized_exact::{
    best_points, built, candidate_scored, consolidated, distinct_points, lemma_consolidated,
    lemma_reordered, lemma_score_pairs_permutation, nearest_vector, preprocessed, preprocessed_as,
    query_points, reads_as, scorable, score_pairs, search_outcome, searched, selects, similar_as,
    CandidateMajorExactConfig, CandidateMajorExactOutput, FactorizedExactCandidate, PlanView,
    ScoreTable,
};
use crate::factorized_filter::list_views;
use crate::storage::{is_live, QueryVector, VectorElementType, VectorStorage};
use crate::top_k::{descending, first_k, lemma_ranked, ranked, top_ranked};
use crate::types::{PointOffsetType, ScoreType, ScoredPointOffset};

verus! {

/// Some candidate asks for a point on behalf of a query.
pub open spec fn asks(
    candidates: Seq<FactorizedExactCandidate>,
    point_id: PointOffsetType,
    query: int,
) -> bool {
    exists|i: int|
        0 <= i < candidates.len() && (#[trigger] candidates[i]).point_id == point_id && bit64(
            candidates[i].query_mask,
            query,
        )
}

/// Two lists ask for the same points on behalf of the same queries.
pub open spec fn asks_alike(
    a: Seq<FactorizedExactCandidate>,
    b: Seq<FactorizedExactCandidate>,
) -> bool {
    forall|point_id: PointOffsetType, query: int| #[trigger]
        asks(a, point_id, query) == asks(b, point_id, query)
}

/// Reordered candidates ask for the same.
pub proof fn lemma_reordered_asks_alike(
    a: Seq<FactorizedExactCandidate>,
    b: Seq<FactorizedExactCandidate>,
)
    requires
        a.to_multiset() == b.to_multiset(),
    ensures
        asks_alike(a, b),
{
    assert forall|point_id: PointOffsetType, query: int| #[trigger]
        asks(a, point_id, query) == asks(b, point_id, query) by {
        if asks(a, point_id, query) {
            lemma_asks_elsewhere(a, b, point_id, query);
        }
        if asks(b, point_id, query) {
            lemma_asks_elsewhere(b, a, point_id, query);
        }
    }
}

proof fn lemma_asks_elsewhere(
    a: Seq<FactorizedExactCandidate>,
    b: Seq<FactorizedExactCandidate>,
    point_id: PointOffsetType,
    query: int,
)
    requires
        a.to_multiset() == b.to_multiset(),
        asks(a, point_id, query),
    ensures
        asks(b, point_id, query),
{
    broadcast use vstd::seq_lib::group_to_multiset_ensures;

    let i = choose|i: int|
        0 <= i < a.len() && (#[trigger] a[i]).point_id == point_id && bit64(
            a[i].query_mask,
            query,
        );
    assert(a.contains(a[i]));
    assert(b.to_multiset().count(a[i]) > 0);
    let j = choose|j: int| 0 <= j < b.len() && b[j] == a[i];
    assert(b[j].point_id == point_id);
}

/// Candidates ask for the same when the mask of one of them is split into two candidates.
pub proof fn lemma_split_asks_alike(
    before: Seq<FactorizedExactCandidate>,
    point_id: PointOffsetType,
    left: u64,
    right: u64,
    after: Seq<FactorizedExactCandidate>,
)
    ensures
        asks_alike(
            before + seq![FactorizedExactCandidate { point_id, query_mask: left | right }] + after,
            before + seq![
                FactorizedExactCandidate { point_id, query_mask: left },
                FactorizedExactCandidate { point_id, query_mask: right },
            ] + after,
        ),
{
    let one = seq![FactorizedExactCandidate { point_id, query_mask: left | right }];
    let two = seq![
        FactorizedExactCandidate { point_id, query_mask: left },
        FactorizedExactCandidate { point_id, query_mask: right },
    ];
    lemma_or64(left, right);
    assert forall|p: PointOffsetType, query: int| #[trigger]
        asks(before + one + after, p, query) == asks(before + two + after, p, query) by {
        lemma_asks_concat(before + one, after, p, query);
        lemma_asks_concat(before, one, p, query);
        lemma_asks_concat(before + two, after, p, query);
        lemma_asks_concat(before, two, p, query);
        assert(bit64(left | right, query) == (bit64(left, query) || bit64(right, query)));
        assert(asks(one, p, query) == asks(two, p, query)) by {
            if p == point_id && bit64(left, query) {
                assert(two[0].point_id == p);
                assert(one[0].point_id == p);
            }
            if p == point_id && bit64(right, query) {
                assert(two[1].point_id == p);
                assert(one[0].point_id == p);
            }
        }
    }
}

proof fn lemma_asks_concat(
    a: Seq<FactorizedExactCandidate>,
    b: Seq<FactorizedExactCandidate>,
    point_id: PointOffsetType,
    query: int,
)
    ensures
        asks(a + b, point_id, query) == (asks(a, point_id, query) || asks(b, point_id, query)),
{
    if asks(a, point_id, query) {
        let i = choose|i: int|
            0 <= i < a.len() && (#[trigger] a[i]).point_id == point_id && bit64(
                a[i].query_mask,
                query,
            );
        assert((a + b)[i] == a[i]);
    }
    if asks(b, point_id, query) {
        let i = choose|i: int|
            0 <= i < b.len() && (#[trigger] b[i]).point_id == point_id && bit64(
                b[i].query_mask,
                query,
            );
        assert((a + b)[a.len() + i] == b[i]);
    }
    if asks(a + b, point_id, query) {
        let i = choose|i: int|
            0 <= i < (a + b).len() && (#[trigger] (a + b)[i]).point_id == point_id && bit64(
                (a + b)[i].query_mask,
                query,
            );
        if i < a.len() {
            assert(a[i] == (a + b)[i]);
        } else {
            assert(b[i - a.len()] == (a + b)[i]);
        }
    }
}

/// Every candidate asks for something.
pub open spec fn all_ask(list: Seq<FactorizedExactCandidate>) -> bool {
    forall|i: int| 0 <= i < list.len() ==> (#[trigger] list[i]).query_mask != 0
}

/// A candidate of a list with distinct points stands in every such list that asks for the same.
proof fn lemma_same_candidate(
    x: Seq<FactorizedExactCandidate>,
    y: Seq<FactorizedExactCandidate>,
    i: int,
)
    requires
        distinct_points(x),
        distinct_points(y),
        all_ask(x),
        asks_alike(x, y),
        0 <= i < x.len(),
    ensures
        y.contains(x[i]),
{
    let point_id = x[i].point_id;
    let bit = lemma_nonzero64(x[i].query_mask);
    assert(asks(x, point_id, bit));
    assert(asks(y, point_id, bit));
    let j = choose|j: int|
        0 <= j < y.len() && (#[trigger] y[j]).point_id == point_id && bit64(y[j].query_mask, bit);
    assert forall|q: int| 0 <= q < 64 implies bit64(x[i].query_mask, q) == bit64(
        y[j].query_mask,
        q,
    ) by {
        assert(asks(x, point_id, q) == asks(y, point_id, q));
        if bit64(x[i].query_mask, q) {
            assert(asks(x, point_id, q));
            let k = choose|k: int|
                0 <= k < y.len() && (#[trigger] y[k]).point_id == point_id && bit64(
                    y[k].query_mask,
                    q,
                );
            if k < j {
                assert(y[k].point_id != y[j].point_id);
            } else if j < k {
                assert(y[j].point_id != y[k].point_id);
            }
        }
        if bit64(y[j].query_mask, q) {
            assert(asks(y, point_id, q));
            let k = choose|k: int|
                0 <= k < x.len() && (#[trigger] x[k]).point_id == point_id && bit64(
                    x[k].query_mask,
                    q,
                );
            if k < i {
                assert(x[k].point_id != x[i].point_id);
            } else if i < k {
                assert(x[i].point_id != x[k].point_id);
            }
        }
    }
    lemma_equal64(x[i].query_mask, y[j].query_mask);
    assert(y[j] == x[i]);
}

/// Lists without repetitions that hold the same are reorderings of each other.
pub(crate) proof fn lemma_same_members<T>(x: Seq<T>, y: Seq<T>)
    requires
        x.no_duplicates(),
        y.no_duplicates(),
        forall|i: int| 0 <= i < x.len() ==> y.contains(#[trigger] x[i]),
        forall|i: int| 0 <= i < y.len() ==> x.contains(#[trigger] y[i]),
    ensures
        x.to_multiset() == y.to_multiset(),
{
    broadcast use vstd::seq_lib::group_to_multiset_ensures;

    x.lemma_multiset_has_no_duplicates();
    y.lemma_multiset_has_no_duplicates();
    assert forall|v: T| #[trigger] x.to_multiset().count(v) == y.to_multiset().count(v) by {
        if x.contains(v) {
            let i = choose|i: int| 0 <= i < x.len() && x[i] == v;
            assert(y.contains(x[i]));
            assert(x.to_multiset().contains(v) && y.to_multiset().contains(v));
        }
        if y.contains(v) {
            let i = choose|i: int| 0 <= i < y.len() && y[i] == v;
            assert(x.contains(y[i]));
        }
        assert(x.contains(v) <==> x.to_multiset().count(v) > 0);
        assert(y.contains(v) <==> y.to_multiset().count(v) > 0);
    }
    assert(x.to_multiset() =~= y.to_multiset());
}

/// Lists with distinct points that ask for the same are reorderings of each other.
proof fn lemma_same_candidates(
    x: Seq<FactorizedExactCandidate>,
    y: Seq<FactorizedExactCandidate>,
)
    requires
        distinct_points(x),
        distinct_points(y),
        all_ask(x),
        all_ask(y),
        asks_alike(x, y),
    ensures
        x.to_multiset() == y.to_multiset(),
{
    assert forall|i: int| 0 <= i < x.len() implies y.contains(#[trigger] x[i]) by {
        lemma_same_candidate(x, y, i);
    }
    assert(asks_alike(y, x)) by {
        assert forall|point_id: PointOffsetType, query: int| #[trigger]
            asks(y, point_id, query) == asks(x, point_id, query) by {
            assert(asks(x, point_id, query) == asks(y, point_id, query));
        }
    }
    assert forall|i: int| 0 <= i < y.len() implies x.contains(#[trigger] y[i]) by {
        lemma_same_candidate(y, x, i);
    }
    lemma_distinct_candidates(x);
    lemma_distinct_candidates(y);
    lemma_same_members(x, y);
}

proof fn lemma_distinct_candidates(list: Seq<FactorizedExactCandidate>)
    requires
        distinct_points(list),
    ensures
        list.no_duplicates(),
{
    assert forall|i: int, j: int| 0 <= i < list.len() && 0 <= j < list.len() && i
        != j implies list[i] != list[j] by {
        if i < j {
            assert(list[i].point_id != list[j].point_id);
        } else {
            assert(list[j].point_id != list[i].point_id);
        }
    }
}

/// The point is scored for the query: it exists, is not deleted, and some candidate asks for it.
pub open spec fn is_wanted(
    storage: VectorStorage,
    candidates: Seq<FactorizedExactCandidate>,
    point_deleted: Seq<bool>,
    query: int,
    point_id: PointOffsetType,
) -> bool {
    &&& point_id < storage.total_vector_count
    &&& is_live(point_id, storage.deleted@, point_deleted)
    &&& asks(candidates, point_id, query)
}

/// The consolidated candidates ask for exactly the wanted points.
pub(crate) proof fn lemma_consolidated_asks(
    storage: VectorStorage,
    candidates: Seq<FactorizedExactCandidate>,
    point_deleted: Seq<bool>,
)
    ensures
        distinct_points(consolidated(candidates, scorable(storage, point_deleted))),
        all_ask(consolidated(candidates, scorable(storage, point_deleted))),
        forall|point_id: PointOffsetType, query: int| #[trigger]
            asks(consolidated(candidates, scorable(storage, point_deleted)), point_id, query)
                == is_wanted(storage, candidates, point_deleted, query, point_id),
{
    let accepts = scorable(storage, point_deleted);
    let merged = consolidated(candidates, accepts);
    lemma_consolidated(candidates, accepts);
    lemma_consolidated_ask(candidates, accepts);
    lemma_zero64();
    assert forall|point_id: PointOffsetType, query: int| #[trigger]
        asks(merged, point_id, query) == is_wanted(
        storage,
        candidates,
        point_deleted,
        query,
        point_id,
    ) by {
        if 0 <= query < 64 {
            assert(selects(candidates, accepts, point_id, query) == asks(merged, point_id, query));
            if selects(candidates, accepts, point_id, query) {
                let i = choose|i: int|
                    0 <= i < candidates.len() && accepts(#[trigger] candidates[i])
                        && candidates[i].point_id == point_id && bit64(
                        candidates[i].query_mask,
                        query,
                    );
                assert(candidates[i].point_id == point_id);
            }
            if is_wanted(storage, candidates, point_deleted, query, point_id) {
                let i = choose|i: int|
                    0 <= i < candidates.len() && (#[trigger] candidates[i]).point_id == point_id
                        && bit64(candidates[i].query_mask, query);
                assert(accepts(candidates[i]));
            }
        }
    }
}

/// Consolidated candidates ask for something when the accepted ones do.
proof fn lemma_consolidated_ask(
    candidates: Seq<FactorizedExactCandidate>,
    accepts: spec_fn(FactorizedExactCandidate) -> bool,
)
    requires
        forall|c: FactorizedExactCandidate| accepts(c) ==> c.query_mask != 0,
    ensures
        all_ask(consolidated(candidates, accepts)),
    decreases candidates.len(),
{
    if candidates.len() > 0 {
        let last = candidates.last();
        let previous = consolidated(candidates.drop_last(), accepts);
        let list = consolidated(candidates, accepts);
        lemma_consolidated_ask(candidates.drop_last(), accepts);
        if accepts(last) {
            assert forall|i: int| 0 <= i < list.len() implies (#[trigger] list[i]).query_mask
                != 0 by {
                if i < previous.len() {
                    let mask = previous[i].query_mask;
                    let q = lemma_nonzero64(mask);
                    lemma_or64(mask, last.query_mask);
                    lemma_zero64();
                    assert(bit64(mask | last.query_mask, q));
                }
            }
        }
    }
}

/// The planned number of score pairs is that of the plan's candidates, and depends only on which
/// points are asked for on behalf of which queries: neither the order of the candidates, nor how
/// their masks are split, nor the number of wanted results, nor the configuration changes it.
pub proof fn lemma_planned_pairs(
    storage: VectorStorage,
    point_deleted: Seq<bool>,
    a: Seq<FactorizedExactCandidate>,
    b: Seq<FactorizedExactCandidate>,
    top_a: nat,
    top_b: nat,
    config_a: CandidateMajorExactConfig,
    config_b: CandidateMajorExactConfig,
    plan_a: PlanView,
    plan_b: PlanView,
)
    requires
        asks_alike(a, b),
        built(plan_a, storage, a, point_deleted, top_a, config_a),
        built(plan_b, storage, b, point_deleted, top_b, config_b),
    ensures
        plan_a.planned_score_pairs == score_pairs(plan_a.candidates),
        plan_b.planned_score_pairs == plan_a.planned_score_pairs,
        plan_b.candidates.to_multiset() == plan_a.candidates.to_multiset(),
{
    let accepts = scorable(storage, point_deleted);
    let x = consolidated(a, accepts);
    let y = consolidated(b, accepts);
    lemma_consolidated_asks(storage, a, point_deleted);
    lemma_consolidated_asks(storage, b, point_deleted);
    assert forall|point_id: PointOffsetType, query: int| #[trigger]
        asks(x, point_id, query) == asks(y, point_id, query) by {
        assert(asks(y, point_id, query) == is_wanted(storage, b, point_deleted, query, point_id));
        assert(asks(a, point_id, query) == asks(b, point_id, query));
    }
    lemma_same_candidates(x, y);
    lemma_score_pairs_permutation(x, y);
    lemma_score_pairs_permutation(plan_a.candidates, x);
}

/// What the operations on vectors give: prepared queries, stored vectors, and similarities.
pub ghost struct Geometry {
    pub prepared: spec_fn(Seq<VectorElementType>) -> Seq<VectorElementType>,
    pub stored: spec_fn(PointOffsetType) -> Seq<VectorElementType>,
    pub similarity: spec_fn(Seq<VectorElementType>, Seq<VectorElementType>) -> ScoreType,
}

impl Geometry {
    /// The score of a point for a query.
    pub open spec fn score(self, query: QueryVector, point_id: PointOffsetType) -> ScoreType {
        (self.similarity)(
            (self.prepared)((nearest_vector(query)->0)@),
            (self.stored)(point_id),
        )
    }
}

/// The operations give what the geometry says, every time.
pub open spec fn follows_geometry<
    P: Fn(&Vec<VectorElementType>) -> Vec<VectorElementType>,
    R: Fn(PointOffsetType) -> Vec<VectorElementType>,
    M: Fn(&Vec<VectorElementType>, &Vec<VectorElementType>) -> ScoreType,
>(preprocess: &P, read_vector: &R, similarity: &M, geometry: Geometry) -> bool {
    &&& forall|query: &Vec<VectorElementType>, vector: Vec<VectorElementType>| #[trigger]
        preprocess.ensures((query,), vector) ==> vector@ == (geometry.prepared)(query@)
    &&& forall|point_id: PointOffsetType, vector: Vec<VectorElementType>| #[trigger]
        read_vector.ensures((point_id,), vector) ==> vector@ == (geometry.stored)(point_id)
    &&& forall|a: &Vec<VectorElementType>, b: &Vec<VectorElementType>, score: ScoreType| #[trigger]
        similarity.ensures((a, b), score) ==> score == (geometry.similarity)(a@, b@)
}

/// No point occurs twice.
pub open spec fn distinct_ids(list: Seq<ScoredPointOffset>) -> bool {
    forall|i: int, j: int|
        0 <= i < j < list.len() ==> (#[trigger] list[i]).idx != (#[trigger] list[j]).idx
}

/// The list holds a point.
pub open spec fn has_id(list: Seq<ScoredPointOffset>, point_id: PointOffsetType) -> bool {
    exists|i: int| 0 <= i < list.len() && (#[trigger] list[i]).idx == point_id
}

/// The wanted points of a query.
pub open spec fn wanted_points(
    storage: VectorStorage,
    candidates: Seq<FactorizedExactCandidate>,
    point_deleted: Seq<bool>,
    query: int,
) -> Set<PointOffsetType> {
    Set::new(
        |point_id: PointOffsetType|
            is_wanted(storage, candidates, point_deleted, query, point_id),
    )
}

/// The list holds points of a set, each once and with its score.
pub open spec fn scores_points(
    list: Seq<ScoredPointOffset>,
    points: Set<PointOffsetType>,
    score: spec_fn(PointOffsetType) -> ScoreType,
) -> bool {
    &&& distinct_ids(list)
    &&& forall|i: int|
        0 <= i < list.len() ==> points.contains((#[trigger] list[i]).idx) && list[i].score
            == score(list[i].idx)
}

/// The list holds the best points of a set, best first: as many as are wanted and there, each once
/// and with its score, and no point that is left out is better.
pub open spec fn holds_best(
    list: Seq<ScoredPointOffset>,
    points: Set<PointOffsetType>,
    score: spec_fn(PointOffsetType) -> ScoreType,
    top: nat,
) -> bool {
    &&& scores_points(list, points, score)
    &&& descending(list)
    &&& points.finite()
    &&& list.len() == min_int(top as int, points.len() as int)
    &&& forall|point_id: PointOffsetType, i: int|
        points.contains(point_id) && !has_id(list, point_id) && 0 <= i < list.len()
            ==> #[trigger] list[i].score >= #[trigger] score(point_id)
}

/// The point is one of the first candidates, with its score.
spec fn is_scored_candidate(
    candidates: Seq<FactorizedExactCandidate>,
    query: int,
    scores: ScoreTable,
    end: int,
    point: ScoredPointOffset,
) -> bool {
    exists|k: int|
        {
            &&& 0 <= k < end
            &&& bit64((#[trigger] candidates[k]).query_mask, query)
            &&& point.idx == candidates[k].point_id
            &&& point.score == scores[(query, k)]
        }
}

/// The points of a query are the candidates that ask on its behalf.
proof fn lemma_query_points(
    candidates: Seq<FactorizedExactCandidate>,
    query: int,
    scores: ScoreTable,
    end: int,
)
    requires
        0 <= end <= candidates.len(),
        distinct_points(candidates),
    ensures
        distinct_ids(query_points(candidates, query, scores, 0, end)),
        forall|i: int|
            0 <= i < query_points(candidates, query, scores, 0, end).len() ==> is_scored_candidate(
                candidates,
                query,
                scores,
                end,
                #[trigger] query_points(candidates, query, scores, 0, end)[i],
            ),
        forall|k: int|
            0 <= k < end && bit64((#[trigger] candidates[k]).query_mask, query) ==> has_id(
                query_points(candidates, query, scores, 0, end),
                candidates[k].point_id,
            ),
    decreases end,
{
    let list = query_points(candidates, query, scores, 0, end);
    if end > 0 {
        let shorter = query_points(candidates, query, scores, 0, end - 1);
        let last = candidates[end - 1];
        lemma_query_points(candidates, query, scores, end - 1);
        assert forall|i: int| 0 <= i < list.len() implies is_scored_candidate(
            candidates,
            query,
            scores,
            end,
            #[trigger] list[i],
        ) by {
            if i < shorter.len() {
                assert(list[i] == shorter[i]);
                assert(is_scored_candidate(candidates, query, scores, end - 1, shorter[i]));
                let k = choose|k: int|
                    {
                        &&& 0 <= k < end - 1
                        &&& bit64((#[trigger] candidates[k]).query_mask, query)
                        &&& shorter[i].idx == candidates[k].point_id
                        &&& shorter[i].score == scores[(query, k)]
                    };
                assert(bit64(candidates[k].query_mask, query));
            } else {
                assert(bit64(candidates[end - 1].query_mask, query));
            }
        }
        assert forall|k: int| 0 <= k < end && bit64(
            (#[trigger] candidates[k]).query_mask,
            query,
        ) implies has_id(list, candidates[k].point_id) by {
            if k < end - 1 {
                assert(has_id(shorter, candidates[k].point_id));
                let i = choose|i: int|
                    0 <= i < shorter.len() && (#[trigger] shorter[i]).idx
                        == candidates[k].point_id;
                assert(list[i] == shorter[i]);
            } else {
                assert(list[shorter.len() as int].idx == candidates[k].point_id);
            }
        }
        assert forall|i: int, j: int| 0 <= i < j < list.len() implies (#[trigger] list[i]).idx != (
        #[trigger] list[j]).idx by {
            assert(list[i] == shorter[i]);
            if j < shorter.len() {
                assert(list[j] == shorter[j]);
            } else {
                assert(is_scored_candidate(candidates, query, scores, end - 1, shorter[i]));
                let k = choose|k: int|
                    {
                        &&& 0 <= k < end - 1
                        &&& bit64((#[trigger] candidates[k]).query_mask, query)
                        &&& shorter[i].idx == candidates[k].point_id
                        &&& shorter[i].score == scores[(query, k)]
                    };
                assert(candidates[k].point_id != candidates[end - 1].point_id);
            }
        }
    }
}

/// A ranking of all points of a set starts with the best of them.
proof fn lemma_best_of_all(
    all: Seq<ScoredPointOffset>,
    points: Set<PointOffsetType>,
    score: spec_fn(PointOffsetType) -> ScoreType,
    top: nat,
)
    requires
        scores_points(all, points, score),
        forall|point_id: PointOffsetType| #[trigger]
            points.contains(point_id) ==> has_id(all, point_id),
    ensures
        holds_best(top_ranked(all, top), points, score, top),
{
    broadcast use vstd::seq_lib::group_to_multiset_ensures;

    let order = ranked(all);
    let list = first_k(order, top);
    lemma_ranked(all);
    lemma_distinct_points_of(all);
    all.lemma_multiset_has_no_duplicates();
    order.lemma_multiset_has_no_duplicates_conv();
    assert forall|i: int| 0 <= i < order.len() implies all.contains(#[trigger] order[i]) by {
        assert(order.contains(order[i]));
        assert(order.to_multiset().count(order[i]) > 0);
    }
    assert forall|i: int| 0 <= i < all.len() implies order.contains(#[trigger] all[i]) by {
        assert(all.contains(all[i]));
        assert(all.to_multiset().count(all[i]) > 0);
    }
    assert forall|i: int, j: int| 0 <= i < j < list.len() implies (#[trigger] list[i]).idx != (
    #[trigger] list[j]).idx by {
        assert(list[i] == order[i] && list[j] == order[j]);
        let x = choose|x: int| 0 <= x < all.len() && all[x] == order[i];
        let y = choose|y: int| 0 <= y < all.len() && all[y] == order[j];
        if x < y {
            assert(all[x].idx != all[y].idx);
        } else if y < x {
            assert(all[y].idx != all[x].idx);
        }
    }
    assert forall|i: int| 0 <= i < list.len() implies points.contains((#[trigger] list[i]).idx)
        && list[i].score == score(list[i].idx) by {
        assert(list[i] == order[i]);
        let x = choose|x: int| 0 <= x < all.len() && all[x] == order[i];
        assert(points.contains(all[x].idx));
    }
    assert forall|point_id: PointOffsetType, i: int|
        points.contains(point_id) && !has_id(list, point_id) && 0 <= i
            < list.len() implies #[trigger] list[i].score >= #[trigger] score(point_id) by {
        assert(has_id(all, point_id));
        let x = choose|x: int| 0 <= x < all.len() && (#[trigger] all[x]).idx == point_id;
        assert(order.contains(all[x]));
        let j = choose|j: int| 0 <= j < order.len() && order[j] == all[x];
        if j < list.len() {
            assert(list[j].idx == point_id);
        }
        assert(order[i].score >= order[j].score);
        assert(list[i] == order[i]);
    }
    let ids = all.map_values(|point: ScoredPointOffset| point.idx);
    assert(ids.no_duplicates()) by {
        assert forall|i: int, j: int| 0 <= i < ids.len() && 0 <= j < ids.len() && i
            != j implies ids[i] != ids[j] by {
            if i < j {
                assert(all[i].idx != all[j].idx);
            } else {
                assert(all[j].idx != all[i].idx);
            }
        }
    }
    ids.unique_seq_to_set();
    assert(ids.to_set() =~= points) by {
        assert forall|p: PointOffsetType| ids.to_set().contains(p) == points.contains(p) by {
            if ids.contains(p) {
                let i = choose|i: int| 0 <= i < ids.len() && ids[i] == p;
                assert(points.contains(all[i].idx));
            }
            if points.contains(p) {
                assert(has_id(all, p));
                let i = choose|i: int| 0 <= i < all.len() && (#[trigger] all[i]).idx == p;
                assert(ids[i] == p);
            }
        }
    }
    vstd::seq_lib::seq_to_set_is_finite(ids);
}

proof fn lemma_distinct_points_of(list: Seq<ScoredPointOffset>)
    requires
        distinct_ids(list),
    ensures
        list.no_duplicates(),
{
    assert forall|i: int, j: int| 0 <= i < list.len() && 0 <= j < list.len() && i
        != j implies list[i] != list[j] by {
        if i < j {
            assert(list[i].idx != list[j].idx);
        } else {
            assert(list[j].idx != list[i].idx);
        }
    }
}

/// The points that a search ranks for a query are exactly the wanted ones, with their scores.
proof fn lemma_ranks_wanted<
    P: Fn(&Vec<VectorElementType>) -> Vec<VectorElementType>,
    R: Fn(PointOffsetType) -> Vec<VectorElementType>,
    M: Fn(&Vec<VectorElementType>, &Vec<VectorElementType>) -> ScoreType,
>(
    storage: VectorStorage,
    queries: Seq<&QueryVector>,
    candidates: Seq<FactorizedExactCandidate>,
    point_deleted: Seq<bool>,
    top: nat,
    config: CandidateMajorExactConfig,
    preprocess: &P,
    read_vector: &R,
    similarity: &M,
    geometry: Geometry,
    plan: PlanView,
    scores: ScoreTable,
    output: CandidateMajorExactOutput,
    q: int,
)
    requires
        follows_geometry(preprocess, read_vector, similarity, geometry),
        preprocessed(preprocess, queries, plan.queries),
        built(plan, storage, candidates, point_deleted, top, config),
        searched(plan, read_vector, similarity, scores, output),
        top > 0,
        0 <= q < queries.len(),
    ensures
        ({
            let all = query_points(
                plan.candidates,
                q,
                scores,
                0,
                plan.candidates.len() as int,
            );
            let points = wanted_points(storage, candidates, point_deleted, q);
            let score = |point_id: PointOffsetType| geometry.score(*queries[q], point_id);
            &&& scores_points(all, points, score)
            &&& forall|point_id: PointOffsetType| #[trigger]
                points.contains(point_id) ==> has_id(all, point_id)
        }),
{
    let merged = consolidated(candidates, scorable(storage, point_deleted));
    let n = plan.candidates.len() as int;
    let all = query_points(plan.candidates, q, scores, 0, n);
    let points = wanted_points(storage, candidates, point_deleted, q);
    let score = |point_id: PointOffsetType| geometry.score(*queries[q], point_id);
    lemma_consolidated_asks(storage, candidates, point_deleted);
    lemma_reordered(merged, plan.candidates);
    lemma_reordered_asks_alike(plan.candidates, merged);
    lemma_query_points(plan.candidates, q, scores, n);
    assert(preprocessed_as(preprocess, *queries[q], plan.queries[q]));
    let prepared = (geometry.prepared)((nearest_vector(*queries[q])->0)@);
    assert(plan.queries[q] == prepared);
    assert forall|i: int| 0 <= i < all.len() implies points.contains((#[trigger] all[i]).idx)
        && all[i].score == score(all[i].idx) by {
        assert(is_scored_candidate(plan.candidates, q, scores, n, all[i]));
        let k = choose|k: int|
            {
                &&& 0 <= k < n
                &&& bit64((#[trigger] plan.candidates[k]).query_mask, q)
                &&& all[i].idx == plan.candidates[k].point_id
                &&& all[i].score == scores[(q, k)]
            };
        let c = plan.candidates[k];
        assert(asks(plan.candidates, c.point_id, q));
        assert(asks(merged, c.point_id, q));
        assert(candidate_scored(read_vector, similarity, plan.queries, c, k, scores));
        let vector = choose|vector: Seq<VectorElementType>| #[trigger]
            reads_as(read_vector, c.point_id, vector) && forall|j: int|
                0 <= j < plan.queries.len() && #[trigger] bit64(c.query_mask, j) ==> similar_as(
                    similarity,
                    plan.queries[j],
                    vector,
                    scores[(j, k)],
                );
        assert(vector == (geometry.stored)(c.point_id));
        assert(similar_as(similarity, plan.queries[q], vector, scores[(q, k)]));
        assert(scores[(q, k)] == (geometry.similarity)(prepared, vector));
    }
    assert forall|point_id: PointOffsetType| #[trigger]
        points.contains(point_id) implies has_id(all, point_id) by {
        assert(asks(merged, point_id, q));
        assert(asks(plan.candidates, point_id, q));
        let k = choose|k: int|
            0 <= k < n && (#[trigger] plan.candidates[k]).point_id == point_id && bit64(
                plan.candidates[k].query_mask,
                q,
            );
        assert(bit64(plan.candidates[k].query_mask, q));
    }
}

/// Every query gets the best of its wanted points.
pub proof fn lemma_search_is_exact<
    P: Fn(&Vec<VectorElementType>) -> Vec<VectorElementType>,
    R: Fn(PointOffsetType) -> Vec<VectorElementType>,
    M: Fn(&Vec<VectorElementType>, &Vec<VectorElementType>) -> ScoreType,
>(
    storage: VectorStorage,
    queries: Seq<&QueryVector>,
    candidates: Seq<FactorizedExactCandidate>,
    point_deleted: Seq<bool>,
    top: nat,
    config: CandidateMajorExactConfig,
    preprocess: &P,
    read_vector: &R,
    similarity: &M,
    geometry: Geometry,
    output: CandidateMajorExactOutput,
)
    requires
        follows_geometry(preprocess, read_vector, similarity, geometry),
        search_outcome(
            storage,
            queries,
            candidates,
            point_deleted,
            top,
            config,
            preprocess,
            read_vector,
            similarity,
            Ok(output),
        ),
        top > 0,
    ensures
        output.results@.len() == queries.len(),
        forall|q: int|
            0 <= q < queries.len() ==> holds_best(
                #[trigger] list_views(output.results@)[q],
                wanted_points(storage, candidates, point_deleted, q),
                |point_id: PointOffsetType| geometry.score(*queries[q], point_id),
                top,
            ),
{
    let (plan, scores) = choose|plan: PlanView, scores: ScoreTable|
        {
            &&& preprocessed(preprocess, queries, plan.queries)
            &&& built(plan, storage, candidates, point_deleted, top, config)
            &&& #[trigger] searched(plan, read_vector, similarity, scores, output)
        };
    let n = plan.candidates.len() as int;
    let lists = best_points(plan.candidates, plan.queries.len(), scores, 0, n, plan.top);
    assert(list_views(output.results@) == lists);
    assert(list_views(output.results@).len() == output.results@.len());
    assert forall|q: int| 0 <= q < queries.len() implies holds_best(
        #[trigger] list_views(output.results@)[q],
        wanted_points(storage, candidates, point_deleted, q),
        |point_id: PointOffsetType| geometry.score(*queries[q], point_id),
        top,
    ) by {
        lemma_ranks_wanted(
            storage,
            queries,
            candidates,
            point_deleted,
            top,
            config,
            preprocess,
            read_vector,
            similarity,
            geometry,
            plan,
            scores,
            output,
            q,
        );
        lemma_best_of_all(
            query_points(plan.candidates, q, scores, 0, n),
            wanted_points(storage, candidates, point_deleted, q),
            |point_id: PointOffsetType| geometry.score(*queries[q], point_id),
            top,
        );
    }
}

/// The scores of a list of points.
pub open spec fn scores_of(list: Seq<ScoredPointOffset>) -> Seq<ScoreType> {
    list.map_values(|point: ScoredPointOffset| point.score)
}

/// Reordered points have reordered scores.
proof fn lemma_scores_reordered(a: Seq<ScoredPointOffset>, b: Seq<ScoredPointOffset>)
    requires
        a.to_multiset() == b.to_multiset(),
    ensures
        scores_of(a).to_multiset() == scores_of(b).to_multiset(),
    decreases a.len(),
{
    broadcast use vstd::seq_lib::group_to_multiset_ensures;

    assert(a.len() == a.to_multiset().len());
    assert(b.len() == b.to_multiset().len());
    if a.len() > 0 {
        let last = a.last();
        assert(a.contains(last));
        assert(b.to_multiset().count(last) > 0);
        let i = choose|i: int| 0 <= i < b.len() && b[i] == last;
        assert(a.remove(a.len() - 1) =~= a.drop_last());
        assert(a.drop_last().to_multiset() == a.to_multiset().remove(last));
        assert(b.remove(i).to_multiset() == b.to_multiset().remove(last));
        lemma_scores_reordered(a.drop_last(), b.remove(i));
        assert(scores_of(a) =~= scores_of(a.drop_last()).push(last.score));
        assert(scores_of(b) =~= scores_of(b.remove(i)).insert(i, last.score));
        assert(scores_of(a).to_multiset() =~= scores_of(a.drop_last()).to_multiset().insert(
            last.score,
        ));
        assert(scores_of(b).to_multiset() =~= scores_of(b.remove(i)).to_multiset().insert(
            last.score,
        ));
    } else {
        assert(a =~= b);
    }
}

/// The scores of the best points do not depend on the order in which the points come.
proof fn lemma_top_scores(a: Seq<ScoredPointOffset>, b: Seq<ScoredPointOffset>, top: nat)
    requires
        a.to_multiset() == b.to_multiset(),
    ensures
        scores_of(top_ranked(a, top)) == scores_of(top_ranked(b, top)),
{
    lemma_ranked(a);
    lemma_ranked(b);
    lemma_scores_reordered(ranked(a), ranked(b));
    let x = scores_of(ranked(a));
    let y = scores_of(ranked(b));
    let order = |s: ScoreType, t: ScoreType| s >= t;
    assert(total_ordering(order));
    assert(sorted_by(x, order)) by {
        assert forall|i: int, j: int| 0 <= i < j < x.len() implies #[trigger] order(
            x[i],
            x[j],
        ) by {
            assert(ranked(a)[i].score >= ranked(a)[j].score);
        }
    }
    assert(sorted_by(y, order)) by {
        assert forall|i: int, j: int| 0 <= i < j < y.len() implies #[trigger] order(
            y[i],
            y[j],
        ) by {
            assert(ranked(b)[i].score >= ranked(b)[j].score);
        }
    }
    vstd::seq_lib::lemma_sorted_unique(x, y, order);
    assert(scores_of(top_ranked(a, top)) =~= first_k(x, top));
    assert(scores_of(top_ranked(b, top)) =~= first_k(y, top));
}

/// The scores of the results depend only on which points are asked for on behalf of which queries:
/// neither the order of the candidates, nor how their masks are split, nor the configuration
/// changes them. Points with the same score may change places.
pub proof fn lemma_scores_do_not_depend_on_order<
    P: Fn(&Vec<VectorElementType>) -> Vec<VectorElementType>,
    R: Fn(PointOffsetType) -> Vec<VectorElementType>,
    M: Fn(&Vec<VectorElementType>, &Vec<VectorElementType>) -> ScoreType,
>(
    storage: VectorStorage,
    queries: Seq<&QueryVector>,
    a: Seq<FactorizedExactCandidate>,
    b: Seq<FactorizedExactCandidate>,
    point_deleted: Seq<bool>,
    top: nat,
    config_a: CandidateMajorExactConfig,
    config_b: CandidateMajorExactConfig,
    preprocess: &P,
    read_vector: &R,
    similarity: &M,
    geometry: Geometry,
    output_a: CandidateMajorExactOutput,
    output_b: CandidateMajorExactOutput,
    q: int,
)
    requires
        asks_alike(a, b),
        follows_geometry(preprocess, read_vector, similarity, geometry),
        search_outcome(
            storage,
            queries,
            a,
            point_deleted,
            top,
            config_a,
            preprocess,
            read_vector,
            similarity,
            Ok(output_a),
        ),
        search_outcome(
            storage,
            queries,
            b,
            point_deleted,
            top,
            config_b,
            preprocess,
            read_vector,
            similarity,
            Ok(output_b),
        ),
        0 <= q < queries.len(),
    ensures
        scores_of(list_views(output_a.results@)[q]) == scores_of(
            list_views(output_b.results@)[q],
        ),
{
    let (plan_a, scores_a) = choose|plan: PlanView, scores: ScoreTable|
        {
            &&& preprocessed(preprocess, queries, plan.queries)
            &&& built(plan, storage, a, point_deleted, top, config_a)
            &&& #[trigger] searched(plan, read_vector, similarity, scores, output_a)
        };
    let (plan_b, scores_b) = choose|plan: PlanView, scores: ScoreTable|
        {
            &&& preprocessed(preprocess, queries, plan.queries)
            &&& built(plan, storage, b, point_deleted, top, config_b)
            &&& #[trigger] searched(plan, read_vector, similarity, scores, output_b)
        };
    let x = query_points(plan_a.candidates, q, scores_a, 0, plan_a.candidates.len() as int);
    let y = query_points(plan_b.candidates, q, scores_b, 0, plan_b.candidates.len() as int);
    if top > 0 {
        lemma_ranks_wanted(
            storage,
            queries,
            a,
            point_deleted,
            top,
            config_a,
            preprocess,
            read_vector,
            similarity,
            geometry,
            plan_a,
            scores_a,
            output_a,
            q,
        );
        lemma_ranks_wanted(
            storage,
            queries,
            b,
            point_deleted,
            top,
            config_b,
            preprocess,
            read_vector,
            similarity,
            geometry,
            plan_b,
            scores_b,
            output_b,
            q,
        );
        let points = wanted_points(storage, a, point_deleted, q);
        assert(wanted_points(storage, b, point_deleted, q) =~= points) by {
            assert forall|p: PointOffsetType|
                wanted_points(storage, b, point_deleted, q).contains(p) == points.contains(p) by {
                assert(asks(a, p, q) == asks(b, p, q));
            }
        }
        let score = |point_id: PointOffsetType| geometry.score(*queries[q], point_id);
        lemma_same_points(x, y, points, score);
        lemma_top_scores(x, y, top);
    } else {
        assert(scores_of(top_ranked(x, 0)) =~= Seq::empty());
        assert(scores_of(top_ranked(y, 0)) =~= Seq::empty());
    }
}

/// Complete lists of the points of a set are reorderings of each other.
proof fn lemma_same_points(
    x: Seq<ScoredPointOffset>,
    y: Seq<ScoredPointOffset>,
    points: Set<PointOffsetType>,
    score: spec_fn(PointOffsetType) -> ScoreType,
)
    requires
        scores_points(x, points, score),
        scores_points(y, points, score),
        forall|point_id: PointOffsetType| #[trigger]
            points.contains(point_id) ==> has_id(x, point_id),
        forall|point_id: PointOffsetType| #[trigger]
            points.contains(point_id) ==> has_id(y, point_id),
    ensures
        x.to_multiset() == y.to_multiset(),
{
    assert forall|i: int| 0 <= i < x.len() implies y.contains(#[trigger] x[i]) by {
        assert(has_id(y, x[i].idx));
        let j = choose|j: int| 0 <= j < y.len() && (#[trigger] y[j]).idx == x[i].idx;
        assert(y[j] == x[i]);
    }
    assert forall|i: int| 0 <= i < y.len() implies x.contains(#[trigger] y[i]) by {
        assert(has_id(x, y[i].idx));
        let j = choose|j: int| 0 <= j < x.len() && (#[trigger] x[j]).idx == y[i].idx;
        assert(x[j] == y[i]);
    }
    lemma_distinct_points_of(x);
    lemma_distinct_points_of(y);
    lemma_same_members(x, y);
}

} // verus!
