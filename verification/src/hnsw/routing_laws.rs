//! What holds of searches whichever way they go.

use vstd::prelude::*;

use crate::error::OperationResult;
use crate::factorized_filter::{
    factorization_outcome, FactorizedFilterPlan, FactorizedFilterPlanError,
};
use crate::filter::Filter;
use crate::filter_laws::{
    filter_holds, lemma_plan_selects_like_filters, plan_gives, PointPayload,
};
use crate::hnsw::params::{CardinalityEstimation, HnswGraphConfig, SearchParams, SearchTimer};
use crate::hnsw::routing::{
    batch_routed, factorized_route, found_alone, present_filters, routed, same_meaning, searched_independently,
    searched_one, single_result, BatchResult,
};
use crate::storage::QueryVector;
use crate::types::{PointOffsetType, ScoredPointOffset};

verus! {

/// The payload of every point.
pub type Payloads = spec_fn(PointOffsetType) -> PointPayload;

/// A choice of points.
pub type Selection = spec_fn(PointOffsetType) -> bool;

/// The right answer to a query: the list that it gets when it may see the chosen points and asks
/// for so many.
pub type Answers = spec_fn(QueryVector, Selection, usize) -> Seq<ScoredPointOffset>;

/// The points that a filter selects. Without a filter these are all points.
pub open spec fn selection(filter: Option<&Filter>, payloads: Payloads) -> Selection {
    |point_id: PointOffsetType|
        match filter {
            Some(filter) => filter_holds(filter.model(), payloads(point_id)),
            None => true,
        }
}

/// The points that a plan gives to a query.
pub open spec fn plan_selection(
    plan: FactorizedFilterPlan,
    q: int,
    payloads: Payloads,
) -> Selection {
    |point_id: PointOffsetType| plan_gives(plan, q, payloads(point_id))
}

/// The list holds chosen points only.
pub open spec fn only_chosen(list: Seq<ScoredPointOffset>, chosen: Selection) -> bool {
    forall|k: int| 0 <= k < list.len() ==> chosen((#[trigger] list[k]).idx)
}

/// All lists hold chosen points only.
pub open spec fn all_only_chosen(r: BatchResult, chosen: Selection) -> bool {
    r matches Ok(results) ==> forall|i: int|
        0 <= i < results@.len() ==> only_chosen((#[trigger] results@[i])@, chosen)
}

/// Every query gets the right answer for the chosen points.
pub open spec fn all_answered(
    vectors: Seq<&QueryVector>,
    chosen: Selection,
    top: usize,
    answers: Answers,
    r: BatchResult,
) -> bool {
    r matches Ok(results) ==> {
        &&& results@.len() == vectors.len()
        &&& forall|i: int|
            0 <= i < vectors.len() ==> (#[trigger] results@[i])@ == answers(
                *vectors[i],
                chosen,
                top,
            )
    }
}

/// There are links to search along.
pub open spec fn has_links(config: HnswGraphConfig) -> bool {
    config.m > 0 || (config.payload_m matches Some(payload_m) && payload_m > 0)
}

/// The caller asks for an exact search.
pub open spec fn wants_exact(params: Option<SearchParams>) -> bool {
    params is Some && params->0.exact
}

/// The settings are those of the caller, but that an exact search looks at no quantized vector.
pub open spec fn keeps_settings(given: Option<SearchParams>, used: Option<SearchParams>) -> bool {
    if wants_exact(given) {
        &&& used is Some
        &&& used->0.exact
        &&& used->0.hnsw_ef == given->0.hnsw_ef
        &&& used->0.acorn == given->0.acorn
        &&& used->0.quantization matches Some(quantization)
        &&& quantization.ignore
        &&& quantization.rescore == Some(false)
        &&& quantization.oversampling is None
    } else {
        used == given
    }
}

/// A search keeps to its filter whichever way it goes: where plain search and graph search give only
/// points that the filter selects which they are given, so does the search.
pub proof fn lemma_search_keeps_to_filter<
    E: Fn(&Filter) -> OperationResult<CardinalityEstimation>,
    S: Fn(&Filter) -> OperationResult<bool>,
    A: Fn(&[&QueryVector], usize, Option<SearchParams>, SearchTimer) -> BatchResult,
    P: Fn(&[&QueryVector], &Filter, usize, Option<SearchParams>, SearchTimer) -> BatchResult,
    G: Fn(&[&QueryVector], Option<&Filter>, usize, Option<SearchParams>, SearchTimer) ->
        BatchResult,
>(
    config: HnswGraphConfig,
    available_vector_count: usize,
    vectors: &[&QueryVector],
    filter: Option<&Filter>,
    top: usize,
    params: Option<SearchParams>,
    estimate: &E,
    sample: &S,
    scan: &A,
    plain: &P,
    graph: &G,
    payloads: Payloads,
    r: BatchResult,
)
    requires
        routed(
            config,
            available_vector_count,
            vectors,
            filter,
            top,
            params,
            estimate,
            sample,
            scan,
            plain,
            graph,
            r,
        ),
        forall|f: &Filter, p: Option<SearchParams>, t: SearchTimer, found: BatchResult| #[trigger]
            plain.ensures((vectors, f, top, p, t), found) ==> all_only_chosen(
                found,
                selection(Some(f), payloads),
            ),
        forall|f: Option<&Filter>, p: Option<SearchParams>, t: SearchTimer, found: BatchResult|
            #[trigger]
            graph.ensures((vectors, f, top, p, t), found) ==> all_only_chosen(
                found,
                selection(f, payloads),
            ),
    ensures
        all_only_chosen(r, selection(filter, payloads)),
{
}

/// A search is right whichever way it goes: where a scan answers rightly for all points, plain
/// search for the points of its filter, and graph search for the points of its filter when there
/// are links and the search need not be exact, every query gets the right answer for the points
/// that the filter of the search selects.
pub proof fn lemma_search_answers<
    E: Fn(&Filter) -> OperationResult<CardinalityEstimation>,
    S: Fn(&Filter) -> OperationResult<bool>,
    A: Fn(&[&QueryVector], usize, Option<SearchParams>, SearchTimer) -> BatchResult,
    P: Fn(&[&QueryVector], &Filter, usize, Option<SearchParams>, SearchTimer) -> BatchResult,
    G: Fn(&[&QueryVector], Option<&Filter>, usize, Option<SearchParams>, SearchTimer) ->
        BatchResult,
>(
    config: HnswGraphConfig,
    available_vector_count: usize,
    vectors: &[&QueryVector],
    filter: Option<&Filter>,
    top: usize,
    params: Option<SearchParams>,
    estimate: &E,
    sample: &S,
    scan: &A,
    plain: &P,
    graph: &G,
    payloads: Payloads,
    answers: Answers,
    r: BatchResult,
)
    requires
        routed(
            config,
            available_vector_count,
            vectors,
            filter,
            top,
            params,
            estimate,
            sample,
            scan,
            plain,
            graph,
            r,
        ),
        forall|v: QueryVector, chosen: Selection| (#[trigger] answers(v, chosen, 0)).len() == 0,
        forall|p: Option<SearchParams>, t: SearchTimer, found: BatchResult| #[trigger]
            scan.ensures((vectors, top, p, t), found) && keeps_settings(params, p) ==> all_answered(
                vectors@,
                selection(None, payloads),
                top,
                answers,
                found,
            ),
        forall|f: &Filter, p: Option<SearchParams>, t: SearchTimer, found: BatchResult| #[trigger]
            plain.ensures((vectors, f, top, p, t), found) && keeps_settings(params, p)
                ==> all_answered(vectors@, selection(Some(f), payloads), top, answers, found),
        forall|f: Option<&Filter>, p: Option<SearchParams>, t: SearchTimer, found: BatchResult|
            #[trigger]
            graph.ensures((vectors, f, top, p, t), found) && p == params && has_links(config)
                && !wants_exact(params) ==> all_answered(
                vectors@,
                selection(f, payloads),
                top,
                answers,
                found,
            ),
    ensures
        all_answered(vectors@, selection(filter, payloads), top, answers, r),
{
    if top == 0 && r is Ok {
        let results = r->Ok_0;
        assert forall|i: int| 0 <= i < vectors@.len() implies (#[trigger] results@[i])@ == answers(
            *vectors@[i],
            selection(filter, payloads),
            top,
        ) by {
            assert(answers(*vectors@[i], selection(filter, payloads), 0).len() == 0);
            assert(results@[i]@ =~= answers(*vectors@[i], selection(filter, payloads), top));
        }
    }
}

/// The way that a search goes fits the number of points that it may see: where estimates bound that
/// number, looking at samples tells whether it reaches the threshold, scan and plain search answer
/// rightly for fewer points than the threshold, for exact searches and without links, and graph
/// search answers rightly from the threshold on, every query gets the right answer.
pub proof fn lemma_search_fits_the_number_of_points<
    E: Fn(&Filter) -> OperationResult<CardinalityEstimation>,
    S: Fn(&Filter) -> OperationResult<bool>,
    A: Fn(&[&QueryVector], usize, Option<SearchParams>, SearchTimer) -> BatchResult,
    P: Fn(&[&QueryVector], &Filter, usize, Option<SearchParams>, SearchTimer) -> BatchResult,
    G: Fn(&[&QueryVector], Option<&Filter>, usize, Option<SearchParams>, SearchTimer) ->
        BatchResult,
>(
    config: HnswGraphConfig,
    count: usize,
    available_vector_count: usize,
    vectors: &[&QueryVector],
    filter: Option<&Filter>,
    top: usize,
    params: Option<SearchParams>,
    estimate: &E,
    sample: &S,
    scan: &A,
    plain: &P,
    graph: &G,
    payloads: Payloads,
    answers: Answers,
    r: BatchResult,
)
    requires
        routed(
            config,
            available_vector_count,
            vectors,
            filter,
            top,
            params,
            estimate,
            sample,
            scan,
            plain,
            graph,
            r,
        ),
        top > 0,
        filter is None ==> count == available_vector_count,
        forall|f: &Filter, cardinality: CardinalityEstimation| #[trigger]
            estimate.ensures((f,), Ok(cardinality)) && filter == Some(f) ==> cardinality.min
                <= count <= cardinality.max,
        forall|f: &Filter, reached: bool| #[trigger]
            sample.ensures((f,), Ok(reached)) && filter == Some(f) ==> reached == (count
                >= config.full_scan_threshold),
        forall|p: Option<SearchParams>, t: SearchTimer, found: BatchResult| #[trigger]
            scan.ensures((vectors, top, p, t), found) && keeps_settings(params, p) && (wants_exact(
                params,
            ) || !has_links(config) || count < config.full_scan_threshold) ==> all_answered(
                vectors@,
                selection(None, payloads),
                top,
                answers,
                found,
            ),
        forall|f: &Filter, p: Option<SearchParams>, t: SearchTimer, found: BatchResult| #[trigger]
            plain.ensures((vectors, f, top, p, t), found) && keeps_settings(params, p) && (
            wants_exact(params) || !has_links(config) || count < config.full_scan_threshold)
                ==> all_answered(vectors@, selection(Some(f), payloads), top, answers, found),
        forall|f: Option<&Filter>, p: Option<SearchParams>, t: SearchTimer, found: BatchResult|
            #[trigger]
            graph.ensures((vectors, f, top, p, t), found) && p == params && has_links(config)
                && !wants_exact(params) && count >= config.full_scan_threshold ==> all_answered(
                vectors@,
                selection(f, payloads),
                top,
                answers,
                found,
            ),
    ensures
        all_answered(vectors@, selection(filter, payloads), top, answers, r),
{
}

/// A search fails only when a search that it chooses from, an estimate or a sample fails.
pub proof fn lemma_search_succeeds<
    E: Fn(&Filter) -> OperationResult<CardinalityEstimation>,
    S: Fn(&Filter) -> OperationResult<bool>,
    A: Fn(&[&QueryVector], usize, Option<SearchParams>, SearchTimer) -> BatchResult,
    P: Fn(&[&QueryVector], &Filter, usize, Option<SearchParams>, SearchTimer) -> BatchResult,
    G: Fn(&[&QueryVector], Option<&Filter>, usize, Option<SearchParams>, SearchTimer) ->
        BatchResult,
>(
    config: HnswGraphConfig,
    available_vector_count: usize,
    vectors: &[&QueryVector],
    filter: Option<&Filter>,
    top: usize,
    params: Option<SearchParams>,
    estimate: &E,
    sample: &S,
    scan: &A,
    plain: &P,
    graph: &G,
    r: BatchResult,
)
    requires
        routed(
            config,
            available_vector_count,
            vectors,
            filter,
            top,
            params,
            estimate,
            sample,
            scan,
            plain,
            graph,
            r,
        ),
        forall|f: &Filter, found: OperationResult<CardinalityEstimation>| #[trigger]
            estimate.ensures((f,), found) ==> found is Ok,
        forall|f: &Filter, found: OperationResult<bool>| #[trigger]
            sample.ensures((f,), found) ==> found is Ok,
        forall|p: Option<SearchParams>, t: SearchTimer, found: BatchResult| #[trigger]
            scan.ensures((vectors, top, p, t), found) ==> found is Ok,
        forall|f: &Filter, p: Option<SearchParams>, t: SearchTimer, found: BatchResult| #[trigger]
            plain.ensures((vectors, f, top, p, t), found) ==> found is Ok,
        forall|f: Option<&Filter>, p: Option<SearchParams>, t: SearchTimer, found: BatchResult|
            #[trigger]
            graph.ensures((vectors, f, top, p, t), found) ==> found is Ok,
    ensures
        r is Ok,
{
}

/// Filters with the same meaning select the same points.
proof fn lemma_same_selection(a: Option<&Filter>, b: Option<&Filter>, payloads: Payloads)
    requires
        same_meaning(a, b),
    ensures
        selection(a, payloads) == selection(b, payloads),
{
    assert(selection(a, payloads) =~= selection(b, payloads));
}

/// The points that a plan gives to a query are those that the filter of the query selects.
proof fn lemma_plan_selection(
    filters: Seq<Option<&Filter>>,
    plan: FactorizedFilterPlan,
    q: int,
    payloads: Payloads,
)
    requires
        present_filters(filters) is Some,
        factorization_outcome(present_filters(filters)->0, Ok(plan)),
        0 <= q < filters.len(),
    ensures
        plan_selection(plan, q, payloads) == selection(filters[q], payloads),
{
    let values = present_filters(filters)->0;
    assert(filters[q] is Some);
    assert(values[q] == *filters[q]->0);
    assert forall|point_id: PointOffsetType|
        plan_gives(plan, q, #[trigger] payloads(point_id)) == filter_holds(
            filters[q]->0.model(),
            payloads(point_id),
        ) by {
        lemma_plan_selects_like_filters(values, plan, q, payloads(point_id));
    }
    assert(plan_selection(plan, q, payloads) =~= selection(filters[q], payloads));
}

/// Every list holds only points that the filter of its query selects.
pub open spec fn each_only_chosen(
    filters: Seq<Option<&Filter>>,
    payloads: Payloads,
    r: BatchResult,
) -> bool {
    r matches Ok(results) ==> forall|i: int|
        0 <= i < results@.len() ==> only_chosen(
            (#[trigger] results@[i])@,
            selection(filters[i], payloads),
        )
}

/// Every query gets the right answer for the points that its own filter selects.
pub open spec fn each_answered(
    vectors: Seq<&QueryVector>,
    filters: Seq<Option<&Filter>>,
    payloads: Payloads,
    top: usize,
    answers: Answers,
    r: BatchResult,
) -> bool {
    r matches Ok(results) ==> {
        &&& results@.len() == vectors.len()
        &&& forall|i: int|
            0 <= i < vectors.len() ==> (#[trigger] results@[i])@ == answers(
                *vectors[i],
                selection(filters[i], payloads),
                top,
            )
    }
}

/// Independent searches keep to the filters.
proof fn lemma_independent_keep_to_filters<
    Q: Fn(&[&QueryVector], Option<&Filter>, usize, Option<SearchParams>) -> BatchResult,
>(
    search: &Q,
    vectors: Seq<&QueryVector>,
    filters: Seq<Option<&Filter>>,
    top: usize,
    params: Option<SearchParams>,
    payloads: Payloads,
    r: BatchResult,
)
    requires
        searched_independently(search, vectors, filters, top, params, r),
        forall|v: &[&QueryVector], f: Option<&Filter>, found: BatchResult| #[trigger]
            search.ensures((v, f, top, params), found) ==> all_only_chosen(
                found,
                selection(f, payloads),
            ),
    ensures
        each_only_chosen(filters, payloads, r),
{
    if r is Ok {
        let results = r->Ok_0;
        assert forall|i: int| 0 <= i < results@.len() implies only_chosen(
            (#[trigger] results@[i])@,
            selection(filters[i], payloads),
        ) by {
            assert(found_alone(search, vectors[i], filters[i], top, params, results@[i]@));
            let found = choose|found: Vec<Vec<ScoredPointOffset>>|
                {
                    &&& #[trigger] searched_one(
                        search,
                        vectors[i],
                        filters[i],
                        top,
                        params,
                        Ok(found),
                    )
                    &&& single_result(found@, results@[i]@)
                };
            let chosen = selection(filters[i], payloads);
            let reply: BatchResult = Ok(found);
            assert(all_only_chosen(reply, chosen));
            assert(reply->Ok_0 == found);
            if found@.len() > 0 {
                let last = found@.len() - 1;
                assert(only_chosen(found@[last]@, chosen));
                assert(results@[i]@ == found@[last]@);
            }
        }
    }
}

/// A batch keeps to the filters whichever way it goes: where `search` gives only points that its
/// filter selects, and `factorized` gives a query only points that its plan gives to it, every list
/// of the batch holds only points that the filter of its query selects.
pub proof fn lemma_batch_keeps_to_filters<
    E: Fn(&Filter) -> OperationResult<CardinalityEstimation>,
    Q: Fn(&[&QueryVector], Option<&Filter>, usize, Option<SearchParams>) -> BatchResult,
    F: Fn(&[&QueryVector], &FactorizedFilterPlan, usize, Option<SearchParams>, SearchTimer) ->
        OperationResult<Option<Vec<Vec<ScoredPointOffset>>>>,
>(
    config: HnswGraphConfig,
    factorization_enabled: bool,
    vectors: &[&QueryVector],
    filters: &[Option<&Filter>],
    top: usize,
    params: Option<SearchParams>,
    estimate: &E,
    search: &Q,
    factorized: &F,
    payloads: Payloads,
    r: BatchResult,
)
    requires
        batch_routed(
            config,
            factorization_enabled,
            vectors,
            filters,
            top,
            params,
            estimate,
            search,
            factorized,
            r,
        ),
        forall|v: &[&QueryVector], f: Option<&Filter>, found: BatchResult| #[trigger]
            search.ensures((v, f, top, params), found) ==> all_only_chosen(
                found,
                selection(f, payloads),
            ),
        forall|v: &[&QueryVector], f: Option<&Filter>, found: BatchResult| #[trigger]
            search.ensures((v, f, top, params), found) && found is Ok ==> found->Ok_0@.len()
                == v@.len(),
        forall|
            plan: &FactorizedFilterPlan,
            p: Option<SearchParams>,
            t: SearchTimer,
            found: Vec<Vec<ScoredPointOffset>>,
        | #[trigger]
            factorized.ensures((vectors, plan, top, p, t), Ok(Some(found))) ==> found@.len()
                == vectors@.len() && forall|i: int|
                0 <= i < found@.len() ==> only_chosen(
                    (#[trigger] found@[i])@,
                    plan_selection(*plan, i, payloads),
                ),
    ensures
        each_only_chosen(filters@, payloads, r),
{
    if searched_independently(search, vectors@, filters@, top, params, r) {
        lemma_independent_keep_to_filters(
            search,
            vectors@,
            filters@,
            top,
            params,
            payloads,
            r,
        );
    } else if r is Ok && vectors@.len() == filters@.len() && vectors@.len() > 0 && top > 0 {
        let results = r->Ok_0;
        if forall|i: int|
            0 <= i < filters@.len() ==> same_meaning(#[trigger] filters@[i], filters@[0]) {
            assert(all_only_chosen(r, selection(filters@[0], payloads)));
            assert forall|i: int| 0 <= i < results@.len() implies only_chosen(
                (#[trigger] results@[i])@,
                selection(filters@[i], payloads),
            ) by {
                lemma_same_selection(filters@[i], filters@[0], payloads);
            }
        } else {
            let factorization = choose|
                factorization: Result<FactorizedFilterPlan, FactorizedFilterPlanError>,
            |
                {
                    &&& #[trigger] factorization_outcome(
                        present_filters(filters@)->0,
                        factorization,
                    )
                    &&& factorization is Ok
                    &&& factorized_route(
                        config,
                        vectors,
                        filters,
                        factorization->Ok_0,
                        top,
                        params,
                        estimate,
                        search,
                        factorized,
                        r,
                    )
                };
            let plan = factorization->Ok_0;
            assert forall|i: int| 0 <= i < results@.len() implies only_chosen(
                (#[trigger] results@[i])@,
                selection(filters@[i], payloads),
            ) by {
                lemma_plan_selection(filters@, plan, i, payloads);
            }
        }
    }
}

/// Independent searches answer every query for the points of its own filter.
proof fn lemma_independent_answer<
    Q: Fn(&[&QueryVector], Option<&Filter>, usize, Option<SearchParams>) -> BatchResult,
>(
    search: &Q,
    vectors: Seq<&QueryVector>,
    filters: Seq<Option<&Filter>>,
    top: usize,
    params: Option<SearchParams>,
    payloads: Payloads,
    answers: Answers,
    r: BatchResult,
)
    requires
        searched_independently(search, vectors, filters, top, params, r),
        forall|v: &[&QueryVector], f: Option<&Filter>, found: BatchResult| #[trigger]
            search.ensures((v, f, top, params), found) ==> all_answered(
                v@,
                selection(f, payloads),
                top,
                answers,
                found,
            ),
    ensures
        each_answered(vectors, filters, payloads, top, answers, r),
{
    if r is Ok {
        let results = r->Ok_0;
        assert forall|i: int| 0 <= i < vectors.len() implies (#[trigger] results@[i])@ == answers(
            *vectors[i],
            selection(filters[i], payloads),
            top,
        ) by {
            assert(found_alone(search, vectors[i], filters[i], top, params, results@[i]@));
            let found = choose|found: Vec<Vec<ScoredPointOffset>>|
                {
                    &&& #[trigger] searched_one(
                        search,
                        vectors[i],
                        filters[i],
                        top,
                        params,
                        Ok(found),
                    )
                    &&& single_result(found@, results@[i]@)
                };
            let single = choose|single: &[&QueryVector]|
                single@ == seq![vectors[i]] && #[trigger] search.ensures(
                    (single, filters[i], top, params),
                    Ok(found),
                );
            assert(all_answered(
                single@,
                selection(filters[i], payloads),
                top,
                answers,
                Ok(found),
            ));
            assert(found@.len() == 1);
            assert(found@[0]@ == answers(*single@[0], selection(filters[i], payloads), top));
        }
    }
}

/// A batch is right whichever way it goes: where `search` answers queries rightly for the points
/// of its filter, and `factorized` for the points that its plan gives to each query, every query of
/// the batch gets the right answer for the points that its own filter selects, just as if it had
/// been searched alone.
pub proof fn lemma_batch_answers<
    E: Fn(&Filter) -> OperationResult<CardinalityEstimation>,
    Q: Fn(&[&QueryVector], Option<&Filter>, usize, Option<SearchParams>) -> BatchResult,
    F: Fn(&[&QueryVector], &FactorizedFilterPlan, usize, Option<SearchParams>, SearchTimer) ->
        OperationResult<Option<Vec<Vec<ScoredPointOffset>>>>,
>(
    config: HnswGraphConfig,
    factorization_enabled: bool,
    vectors: &[&QueryVector],
    filters: &[Option<&Filter>],
    top: usize,
    params: Option<SearchParams>,
    estimate: &E,
    search: &Q,
    factorized: &F,
    payloads: Payloads,
    answers: Answers,
    r: BatchResult,
)
    requires
        batch_routed(
            config,
            factorization_enabled,
            vectors,
            filters,
            top,
            params,
            estimate,
            search,
            factorized,
            r,
        ),
        forall|v: QueryVector, chosen: Selection| (#[trigger] answers(v, chosen, 0)).len() == 0,
        forall|v: &[&QueryVector], f: Option<&Filter>, found: BatchResult| #[trigger]
            search.ensures((v, f, top, params), found) ==> all_answered(
                v@,
                selection(f, payloads),
                top,
                answers,
                found,
            ),
        forall|
            plan: &FactorizedFilterPlan,
            p: Option<SearchParams>,
            t: SearchTimer,
            found: Vec<Vec<ScoredPointOffset>>,
        | #[trigger]
            factorized.ensures((vectors, plan, top, p, t), Ok(Some(found))) && keeps_settings(
                params,
                p,
            ) ==> found@.len() == vectors@.len() && forall|i: int|
                0 <= i < found@.len() ==> (#[trigger] found@[i])@ == answers(
                    *vectors@[i],
                    plan_selection(*plan, i, payloads),
                    top,
                ),
    ensures
        each_answered(vectors@, filters@, payloads, top, answers, r),
        r is Ok ==> vectors@.len() == filters@.len(),
{
    if r is Ok && vectors@.len() == filters@.len() {
        let results = r->Ok_0;
        if vectors@.len() == 0 || top == 0 {
            assert forall|i: int| 0 <= i < vectors@.len() implies (#[trigger] results@[i])@
                == answers(*vectors@[i], selection(filters@[i], payloads), top) by {
                assert(answers(*vectors@[i], selection(filters@[i], payloads), 0).len() == 0);
                assert(results@[i]@ =~= answers(
                    *vectors@[i],
                    selection(filters@[i], payloads),
                    top,
                ));
            }
        } else if searched_independently(search, vectors@, filters@, top, params, r) {
            lemma_independent_answer(
                search,
                vectors@,
                filters@,
                top,
                params,
                payloads,
                answers,
                r,
            );
        } else if forall|i: int|
            0 <= i < filters@.len() ==> same_meaning(#[trigger] filters@[i], filters@[0]) {
            assert(all_answered(
                vectors@,
                selection(filters@[0], payloads),
                top,
                answers,
                r,
            ));
            assert forall|i: int| 0 <= i < vectors@.len() implies (#[trigger] results@[i])@
                == answers(*vectors@[i], selection(filters@[i], payloads), top) by {
                lemma_same_selection(filters@[i], filters@[0], payloads);
            }
        } else {
            let factorization = choose|
                factorization: Result<FactorizedFilterPlan, FactorizedFilterPlanError>,
            |
                {
                    &&& #[trigger] factorization_outcome(
                        present_filters(filters@)->0,
                        factorization,
                    )
                    &&& factorization is Ok
                    &&& factorized_route(
                        config,
                        vectors,
                        filters,
                        factorization->Ok_0,
                        top,
                        params,
                        estimate,
                        search,
                        factorized,
                        r,
                    )
                };
            let plan = factorization->Ok_0;
            assert forall|i: int| 0 <= i < vectors@.len() implies (#[trigger] results@[i])@
                == answers(*vectors@[i], selection(filters@[i], payloads), top) by {
                lemma_plan_selection(filters@, plan, i, payloads);
            }
        }
    }
}

/// A batch with as many filters as queries fails only when a search that it chooses from or an
/// estimate fails.
pub proof fn lemma_batch_succeeds<
    E: Fn(&Filter) -> OperationResult<CardinalityEstimation>,
    Q: Fn(&[&QueryVector], Option<&Filter>, usize, Option<SearchParams>) -> BatchResult,
    F: Fn(&[&QueryVector], &FactorizedFilterPlan, usize, Option<SearchParams>, SearchTimer) ->
        OperationResult<Option<Vec<Vec<ScoredPointOffset>>>>,
>(
    config: HnswGraphConfig,
    factorization_enabled: bool,
    vectors: &[&QueryVector],
    filters: &[Option<&Filter>],
    top: usize,
    params: Option<SearchParams>,
    estimate: &E,
    search: &Q,
    factorized: &F,
    r: BatchResult,
)
    requires
        batch_routed(
            config,
            factorization_enabled,
            vectors,
            filters,
            top,
            params,
            estimate,
            search,
            factorized,
            r,
        ),
        vectors@.len() == filters@.len(),
        forall|f: &Filter, found: OperationResult<CardinalityEstimation>| #[trigger]
            estimate.ensures((f,), found) ==> found is Ok,
        forall|v: &[&QueryVector], f: Option<&Filter>, found: BatchResult| #[trigger]
            search.ensures((v, f, top, params), found) ==> found is Ok,
        forall|
            plan: &FactorizedFilterPlan,
            p: Option<SearchParams>,
            t: SearchTimer,
            found: OperationResult<Option<Vec<Vec<ScoredPointOffset>>>>,
        | #[trigger]
            factorized.ensures((vectors, plan, top, p, t), found) ==> found is Ok,
    ensures
        r is Ok,
{
}

} // verus!
