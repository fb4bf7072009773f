//! What a segment plans to search for a batch of filtered queries.

use vstd::prelude::*;

use crate::bits::bit64;
use crate::error::OperationResult;
use crate::exact_laws::{asks, is_wanted, lemma_consolidated_asks, lemma_reordered_asks_alike};
use crate::factorized_exact::{
    consolidated, no_prepare_stats, scorable, CandidateMajorExactConfig, CandidateMajorExactPlan,
    FactorizedExactCandidate, PlanView,
};
use crate::factorized_filter::{factorization_outcome, FactorizedFilterPlan};
use crate::filter::{Filter, PayloadKeyType};
use crate::filter_laws::{filter_holds, lemma_plan_selects_like_filters, plan_gives};
use crate::hnsw::routing_laws::Payloads;
use crate::integer_postings::{
    all_pairs, posting_pairs, IntegerPosting, IntegerPostingAtom, IntegerPostingBatch,
};
use crate::segment::{
    atoms_have_words, fetched_as, lemma_candidates_follow_postings, listed, materialized,
    planned_from_candidates, planned_from_postings,
    posted, posting_atoms_of, postings_outcome, segment_prepared, Segment,
};
use crate::storage::{QueryVector, VectorElementType, VectorStorage};
use crate::types::{PointOffsetType, ScoredPointOffset};

verus! {

/// The postings are right: each holds the points that have the value of its atom, and has the mask of
/// its atom.
pub open spec fn postings_are_right(
    key: Seq<char>,
    atoms: Seq<IntegerPostingAtom>,
    postings: Seq<IntegerPosting>,
    payloads: Payloads,
) -> bool {
    &&& postings.len() == atoms.len()
    &&& forall|a: int|
        0 <= a < atoms.len() ==> (#[trigger] postings[a]).query_mask == atoms[a].query_mask
    &&& forall|a: int, p: PointOffsetType|
        0 <= a < atoms.len() ==> (#[trigger] postings[a].point_ids@.contains(p) <==> (payloads(
            p,
        ).integers)(key).contains(atoms[a].value))
}

/// The point is there: it has a vector, and neither the vector nor the point is flagged as deleted.
/// A point without a flag counts as deleted, a vector without one as present.
pub open spec fn is_there(
    storage: VectorStorage,
    deleted_points: Seq<bool>,
    p: PointOffsetType,
) -> bool {
    &&& p < storage.total_vector_count
    &&& p < storage.deleted@.len() ==> !storage.deleted@[p as int]
    &&& p < deleted_points.len()
    &&& !deleted_points[p as int]
}

/// A segment plans to score exactly what the filters select: a point on behalf of a query where the
/// filter of that query selects the point and the point is there.
pub proof fn lemma_plan_asks_for_selected_points<
    P: Fn(&Vec<VectorElementType>) -> Vec<VectorElementType>,
    F: Fn(&PayloadKeyType, &Vec<IntegerPostingAtom>) -> OperationResult<
        Option<IntegerPostingBatch>,
    >,
    C: Fn() -> u128,
    S: Fn() -> bool,
>(
    segment: Segment,
    vector_name: Seq<char>,
    queries: Seq<&QueryVector>,
    filters: Seq<Filter>,
    factorized_plan: FactorizedFilterPlan,
    top: nat,
    config: CandidateMajorExactConfig,
    deleted_points: Option<&[bool]>,
    preprocess: &P,
    fetch_postings: &F,
    clock: &C,
    is_stopped: &S,
    payloads: Payloads,
    plan: CandidateMajorExactPlan,
)
    requires
        segment_prepared(
            segment,
            vector_name,
            queries,
            factorized_plan,
            top,
            config,
            deleted_points,
            preprocess,
            fetch_postings,
            clock,
            is_stopped,
            Ok(Some(plan)),
        ),
        factorization_outcome(filters, Ok(factorized_plan)),
        filters.len() == queries.len(),
        forall|
            key: &PayloadKeyType,
            atoms: &Vec<IntegerPostingAtom>,
            batch: IntegerPostingBatch,
        | #[trigger]
            fetch_postings.ensures((key, atoms), Ok(Some(batch))) ==> postings_are_right(
                key@,
                atoms@,
                batch.postings@,
                payloads,
            ),
    ensures
        segment.exact_storage(vector_name) is Some,
        plan@.top == top,
        plan@.queries.len() == queries.len(),
        forall|p: PointOffsetType, q: int| #![trigger asks(plan@.candidates, p, q)]
            0 <= q < queries.len() ==> asks(plan@.candidates, p, q) == (filter_holds(
                filters[q].model(),
                payloads(p),
            ) && is_there(
                segment.exact_storage(vector_name)->0,
                match deleted_points {
                    Some(flags) => flags@,
                    None => segment.deleted_points@,
                },
                p,
            )),
{
    let r: OperationResult<Option<CandidateMajorExactPlan>> = Ok(Some(plan));
    let storage = segment.exact_storage(vector_name)->0;
    let flags = match deleted_points {
        Some(flags) => flags@,
        None => segment.deleted_points@,
    };
    let atoms = posting_atoms_of(factorized_plan);
    assert(segment.is_eligible(vector_name, queries.len(), factorized_plan));
    let fetched = choose|fetched: OperationResult<Option<IntegerPostingBatch>>|
        {
            &&& #[trigger] fetched_as(
                fetch_postings,
                factorized_plan.spec_key(),
                atoms,
                fetched,
            )
            &&& fetched matches Ok(Some(batch))
            &&& planned_from_postings(
                storage,
                queries,
                factorized_plan.spec_query_count(),
                batch,
                segment.total_point_count as nat,
                flags,
                top,
                config,
                preprocess,
                r,
            )
        };
    let batch = fetched->Ok_0->Some_0;
    assert(postings_are_right(factorized_plan.spec_key(), atoms, batch.postings@, payloads));
    let collected = choose|collected: OperationResult<Option<Vec<FactorizedExactCandidate>>>|
        {
            &&& #[trigger] postings_outcome(
                batch,
                segment.total_point_count as nat,
                config.ordinal_ordering_threshold as nat,
                collected,
            )
            &&& match collected {
                Err(error) => false,
                Ok(None) => false,
                Ok(Some(list)) => planned_from_candidates(
                    storage,
                    queries,
                    factorized_plan.spec_query_count(),
                    list@,
                    flags,
                    top,
                    config,
                    preprocess,
                    r,
                ),
            }
        };
    let list = collected->Ok_0->Some_0;
    let merged = consolidated(list@, scorable(storage, flags));
    let bare = PlanView { prepare_stats: no_prepare_stats(), ..plan@ };
    assert(bare.candidates.to_multiset() == merged.to_multiset());
    lemma_consolidated_asks(storage, list@, flags);
    lemma_reordered_asks_alike(plan@.candidates, merged);
    assert forall|p: PointOffsetType, q: int| #![trigger asks(plan@.candidates, p, q)]
        0 <= q < queries.len() implies asks(plan@.candidates, p, q) == (filter_holds(
        filters[q].model(),
        payloads(p),
    ) && is_there(storage, flags, p)) by {
        assert(asks(plan@.candidates, p, q) == asks(merged, p, q));
        assert(asks(merged, p, q) == is_wanted(storage, list@, flags, q, p));
        lemma_candidates_follow_postings(
            batch,
            segment.total_point_count as nat,
            config.ordinal_ordering_threshold as nat,
            list,
            p,
            q,
        );
        assert(asks(list@, p, q) == listed(list@, p, q)) by {
            if asks(list@, p, q) {
                let i = choose|i: int|
                    0 <= i < list@.len() && (#[trigger] list@[i]).point_id == p && bit64(
                        list@[i].query_mask,
                        q,
                    );
                assert(list@[i].point_id == p);
            }
            if listed(list@, p, q) {
                let i = choose|i: int|
                    0 <= i < list@.len() && (#[trigger] list@[i]).point_id == p && bit64(
                        list@[i].query_mask,
                        q,
                    );
                assert(list@[i].point_id == p);
            }
        }
        lemma_posted(batch.postings@, p, q);
        lemma_plan_selects_like_filters(filters, factorized_plan, q, payloads(p));
        lemma_holds_for_plan(factorized_plan, batch.postings@, payloads, p, q);
    }
}

/// Some posting that asks for the query holds the point.
spec fn holds_for(postings: Seq<IntegerPosting>, p: PointOffsetType, q: int) -> bool {
    exists|a: int|
        0 <= a < postings.len() && #[trigger] postings[a].point_ids@.contains(p) && bit64(
            postings[a].query_mask,
            q,
        )
}

/// The pairs of postings.
proof fn lemma_posted(postings: Seq<IntegerPosting>, p: PointOffsetType, q: int)
    ensures
        posted(all_pairs(postings), p, q) == holds_for(postings, p, q),
    decreases postings.len(),
{
    let pairs = all_pairs(postings);
    if postings.len() > 0 {
        let rest = postings.drop_last();
        let last = postings.last();
        lemma_posted(rest, p, q);
        let before = all_pairs(rest);
        let own = posting_pairs(last, last.point_ids@.len() as int);
        if posted(pairs, p, q) {
            let k = choose|k: int|
                0 <= k < pairs.len() && (#[trigger] pairs[k]).0 == p && bit64(pairs[k].1, q);
            if k < before.len() {
                assert(before[k] == pairs[k]);
                assert(posted(before, p, q));
                let a = choose|a: int|
                    0 <= a < rest.len() && #[trigger] rest[a].point_ids@.contains(p) && bit64(
                        rest[a].query_mask,
                        q,
                    );
                assert(postings[a] == rest[a]);
                assert(postings[a].point_ids@.contains(p));
            } else {
                let j = k - before.len();
                assert(own[j] == pairs[k]);
                assert(last.point_ids@[j] == p);
                assert(postings[postings.len() - 1].point_ids@.contains(p));
            }
        }
        if holds_for(postings, p, q) {
            let a = choose|a: int|
                0 <= a < postings.len() && #[trigger] postings[a].point_ids@.contains(p) && bit64(
                    postings[a].query_mask,
                    q,
                );
            if a < rest.len() {
                assert(rest[a] == postings[a]);
                assert(rest[a].point_ids@.contains(p));
                assert(posted(before, p, q));
                let k = choose|k: int|
                    0 <= k < before.len() && (#[trigger] before[k]).0 == p && bit64(
                        before[k].1,
                        q,
                    );
                assert(pairs[k] == before[k]);
            } else {
                let j = choose|j: int| 0 <= j < last.point_ids@.len() && last.point_ids@[j] == p;
                assert(own[j].0 == p);
                assert(pairs[before.len() + j] == own[j]);
            }
        }
    }
}

/// A plan gives a point to a query where some posting of the query holds it.
proof fn lemma_holds_for_plan(
    plan: FactorizedFilterPlan,
    postings: Seq<IntegerPosting>,
    payloads: Payloads,
    p: PointOffsetType,
    q: int,
)
    requires
        postings_are_right(plan.spec_key(), posting_atoms_of(plan), postings, payloads),
        atoms_have_words(plan),
        0 <= q < 64,
    ensures
        holds_for(postings, p, q) == plan_gives(plan, q, payloads(p)),
{
    let atoms = posting_atoms_of(plan);
    let integers = (payloads(p).integers)(plan.spec_key());
    assert forall|a: int| 0 <= a < atoms.len() implies (#[trigger] plan.spec_atoms()[a])
        .spec_query_mask().has(q) == bit64(atoms[a].query_mask, q) && plan.atom_values()[a]
        == atoms[a].value by {
        let words = plan.spec_atoms()[a].spec_query_mask().spec_words();
        assert(words.len() > 0);
        assert(q / 64 == 0 && q % 64 == q);
    }
    if holds_for(postings, p, q) {
        let a = choose|a: int|
            0 <= a < postings.len() && #[trigger] postings[a].point_ids@.contains(p) && bit64(
                postings[a].query_mask,
                q,
            );
        assert(postings[a].query_mask == atoms[a].query_mask);
        assert(plan.spec_atoms()[a].spec_query_mask().has(q));
        assert(integers.contains(plan.atom_values()[a]));
    }
    if plan_gives(plan, q, payloads(p)) {
        let a = choose|a: int|
            {
                &&& 0 <= a < plan.spec_atoms().len()
                &&& #[trigger] plan.spec_atoms()[a].spec_query_mask().has(q)
                &&& integers.contains(plan.atom_values()[a])
            };
        assert(postings[a].query_mask == atoms[a].query_mask);
        assert(postings[a].point_ids@.contains(p));
    }
}

/// Every query gets what its own points convert to.
pub proof fn lemma_results_belong_to_queries<
    T,
    F: Fn(&Vec<ScoredPointOffset>) -> OperationResult<T>,
>(
    process_search_result: &F,
    internal_results: Seq<Vec<ScoredPointOffset>>,
    converted: spec_fn(Seq<ScoredPointOffset>) -> T,
    r: OperationResult<Vec<T>>,
)
    requires
        materialized(process_search_result, internal_results, r),
        forall|points: &Vec<ScoredPointOffset>, result: OperationResult<T>| #[trigger]
            process_search_result.ensures((points,), result) ==> result is Ok && result->Ok_0
                == converted(points@),
    ensures
        r is Ok,
        r->Ok_0@ == Seq::new(
            internal_results.len(),
            |i: int| converted(internal_results[i]@),
        ),
{
    if r is Ok {
        let results = r->Ok_0@;
        assert forall|i: int| 0 <= i < results.len() implies results[i] == converted(
            internal_results[i]@,
        ) by {
            let one = results[i];
        }
        assert(results =~= Seq::new(
            internal_results.len(),
            |i: int| converted(internal_results[i]@),
        ));
    }
}

} // verus!
