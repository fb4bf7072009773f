//! What may be kept of a filter until payloads change.

use vstd::prelude::*;

use crate::filter::{ConditionView, FilterView};
use crate::filter_laws::{
    clause_holds, condition_holds, filter_holds, minimum_holds, some_true, which_hold,
    PointPayload,
};
use crate::hnsw::filters::{
    payload_only, payload_only_clause, payload_only_condition, payload_only_list, payload_only_min,
};

verus! {

/// The condition looks at more of a point than its payload: at its name, its vectors, or at what a
/// caller knows of it.
pub open spec fn looks_further(condition: ConditionView) -> bool
    decreases condition,
{
    match condition {
        ConditionView::HasId(_) | ConditionView::HasVector(_) | ConditionView::CustomIdChecker(
            _,
        ) => true,
        ConditionView::Nested(_, filter) | ConditionView::Filter(filter) => filter_looks_further(
            *filter,
        ),
        _ => false,
    }
}

/// Which of the conditions look further.
pub open spec fn which_look_further(list: Seq<ConditionView>) -> Seq<bool>
    decreases list,
{
    Seq::new(
        list.len(),
        |i: int|
            if 0 <= i < list.len() {
                looks_further(list[i])
            } else {
                false
            },
    )
}

/// Some condition of the clause looks further.
pub open spec fn clause_looks_further(clause: Option<Seq<ConditionView>>) -> bool
    decreases clause,
{
    match clause {
        Some(list) => some_true(which_look_further(list)),
        None => false,
    }
}

/// Some condition of the minimum clause looks further.
pub open spec fn minimum_looks_further(clause: Option<(Seq<ConditionView>, int)>) -> bool
    decreases clause,
{
    match clause {
        Some((list, _)) => some_true(which_look_further(list)),
        None => false,
    }
}

/// Some condition of the filter, at any depth, looks further.
pub open spec fn filter_looks_further(filter: FilterView) -> bool
    decreases filter,
{
    ||| clause_looks_further(filter.must)
    ||| clause_looks_further(filter.should)
    ||| minimum_looks_further(filter.min_should)
    ||| clause_looks_further(filter.must_not)
}

/// The points have the same payload: whatever only looks at payloads holds for both or for none.
pub open spec fn same_payload(a: PointPayload, b: PointPayload) -> bool {
    &&& a.integers == b.integers
    &&& forall|condition: ConditionView|
        !looks_further(condition) ==> #[trigger] (a.holds)(condition) == (b.holds)(condition)
}

proof fn lemma_list(list: Seq<ConditionView>)
    ensures
        payload_only_list(list) == !some_true(which_look_further(list)),
    decreases list,
{
    let looks = which_look_further(list);
    assert forall|i: int| 0 <= i < list.len() implies payload_only_condition(#[trigger] list[i])
        == !looks[i] by {
        lemma_condition(list[i]);
    }
    if payload_only_list(list) {
        assert forall|i: int| 0 <= i < looks.len() implies !(#[trigger] looks[i]) by {
            assert(payload_only_condition(list[i]));
        }
    }
    if !some_true(looks) {
        assert forall|i: int| #![trigger list[i]] 0 <= i < list.len() implies (if 0 <= i
            < list.len() {
            payload_only_condition(list[i])
        } else {
            true
        }) by {
            assert(!looks[i]);
        }
    }
}

proof fn lemma_condition(condition: ConditionView)
    ensures
        payload_only_condition(condition) == !looks_further(condition),
    decreases condition,
{
    match condition {
        ConditionView::Nested(_, filter) => {
            lemma_cacheable_filters(*filter);
        },
        ConditionView::Filter(filter) => {
            lemma_cacheable_filters(*filter);
        },
        _ => {},
    }
}

proof fn lemma_clause(clause: Option<Seq<ConditionView>>)
    ensures
        payload_only_clause(clause) == !clause_looks_further(clause),
    decreases clause,
{
    match clause {
        Some(list) => {
            lemma_list(list);
        },
        None => {},
    }
}

proof fn lemma_minimum(clause: Option<(Seq<ConditionView>, int)>)
    ensures
        payload_only_min(clause) == !minimum_looks_further(clause),
    decreases clause,
{
    match clause {
        Some(pair) => {
            lemma_list(pair.0);
        },
        None => {},
    }
}

/// The selection of a filter is kept exactly where no condition, at any depth, looks further than the
/// payload.
pub proof fn lemma_cacheable_filters(filter: FilterView)
    ensures
        payload_only(filter) == !filter_looks_further(filter),
    decreases filter,
{
    lemma_clause(filter.must);
    lemma_clause(filter.should);
    lemma_minimum(filter.min_should);
    lemma_clause(filter.must_not);
}

proof fn lemma_same_list(list: Seq<ConditionView>, a: PointPayload, b: PointPayload)
    requires
        payload_only_list(list),
        same_payload(a, b),
    ensures
        which_hold(list, a) == which_hold(list, b),
    decreases list,
{
    let held_a = which_hold(list, a);
    let held_b = which_hold(list, b);
    assert forall|i: int| 0 <= i < list.len() implies held_a[i] == held_b[i] by {
        assert(payload_only_condition(list[i]));
        lemma_same_condition(list[i], a, b);
    }
    assert(held_a =~= held_b);
}

proof fn lemma_same_condition(condition: ConditionView, a: PointPayload, b: PointPayload)
    requires
        payload_only_condition(condition),
        same_payload(a, b),
    ensures
        condition_holds(condition, a) == condition_holds(condition, b),
    decreases condition,
{
    lemma_condition(condition);
    assert((a.holds)(condition) == (b.holds)(condition));
    match condition {
        ConditionView::Filter(filter) => {
            lemma_kept_selection_is_right(*filter, a, b);
        },
        _ => {},
    }
}

proof fn lemma_same_clause(clause: Option<Seq<ConditionView>>, a: PointPayload, b: PointPayload)
    requires
        payload_only_clause(clause),
        same_payload(a, b),
    ensures
        clause_holds(clause, a) == clause_holds(clause, b),
    decreases clause,
{
    match clause {
        Some(list) => {
            lemma_same_list(list, a, b);
        },
        None => {},
    }
}

proof fn lemma_same_minimum(
    clause: Option<(Seq<ConditionView>, int)>,
    a: PointPayload,
    b: PointPayload,
)
    requires
        payload_only_min(clause),
        same_payload(a, b),
    ensures
        minimum_holds(clause, a) == minimum_holds(clause, b),
    decreases clause,
{
    match clause {
        Some(pair) => {
            lemma_same_list(pair.0, a, b);
        },
        None => {},
    }
}

/// A selection that is kept stays right as long as payloads stay the same: whatever else changes of a
/// point, the filter goes on to select it or not to.
pub proof fn lemma_kept_selection_is_right(
    filter: FilterView,
    a: PointPayload,
    b: PointPayload,
)
    requires
        payload_only(filter),
        same_payload(a, b),
    ensures
        filter_holds(filter, a) == filter_holds(filter, b),
    decreases filter,
{
    lemma_same_clause(filter.must, a, b);
    lemma_same_clause(filter.should, a, b);
    lemma_same_minimum(filter.min_should, a, b);
    lemma_same_clause(filter.must_not, a, b);
}

} // verus!
