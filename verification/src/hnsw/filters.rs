//! Filters whose selection can be kept.

use vstd::prelude::*;

use crate::filter::{clause_model, conditions_model, Condition, ConditionView, Filter, FilterView};

verus! {

/// The condition is decided by the payload alone.
pub open spec fn payload_only_condition(condition: ConditionView) -> bool
    decreases condition,
{
    match condition {
        ConditionView::Field(_) => true,
        ConditionView::IsEmpty(_) => true,
        ConditionView::IsNull(_) => true,
        ConditionView::Nested(_, filter) => payload_only(*filter),
        ConditionView::Filter(filter) => payload_only(*filter),
        ConditionView::HasId(_) => false,
        ConditionView::HasVector(_) => false,
        ConditionView::CustomIdChecker(_) => false,
    }
}

/// Every condition is decided by the payload alone.
pub open spec fn payload_only_list(list: Seq<ConditionView>) -> bool
    decreases list,
{
    forall|i: int|
        #![trigger list[i]]
        0 <= i < list.len() ==> (if 0 <= i < list.len() {
            payload_only_condition(list[i])
        } else {
            true
        })
}

/// Every condition of a clause is decided by the payload alone.
pub open spec fn payload_only_clause(clause: Option<Seq<ConditionView>>) -> bool
    decreases clause,
{
    match clause {
        Some(list) => payload_only_list(list),
        None => true,
    }
}

/// Every condition of a minimum clause is decided by the payload alone.
pub open spec fn payload_only_min(clause: Option<(Seq<ConditionView>, int)>) -> bool
    decreases clause,
{
    match clause {
        Some(pair) => payload_only_list(pair.0),
        None => true,
    }
}

/// The filter is decided by the payload alone: its selection stays the same as long as the payload
/// index does.
pub open spec fn payload_only(filter: FilterView) -> bool
    decreases filter,
{
    &&& payload_only_clause(filter.should)
    &&& payload_only_min(filter.min_should)
    &&& payload_only_clause(filter.must)
    &&& payload_only_clause(filter.must_not)
}

fn cacheable_condition(condition: &Condition) -> (r: bool)
    ensures
        r == payload_only_condition(condition.model()),
    decreases condition,
{
    match condition {
        Condition::Field(_) => true,
        Condition::IsEmpty(_) => true,
        Condition::IsNull(_) => true,
        Condition::Nested(_, filter) => gpu_filter_cacheable(filter),
        Condition::Filter(filter) => gpu_filter_cacheable(filter),
        Condition::HasId(_) => false,
        Condition::HasVector(_) => false,
        Condition::CustomIdChecker(_) => false,
    }
}

fn cacheable_list(list: &Vec<Condition>) -> (r: bool)
    ensures
        r == payload_only_list(conditions_model(list@)),
    decreases list,
{
    let ghost views = conditions_model(list@);
    let mut i: usize = 0;
    while i < list.len()
        invariant
            i <= list@.len(),
            views == conditions_model(list@),
            forall|j: int| 0 <= j < i ==> payload_only_condition(#[trigger] views[j]),
        decreases list@.len() - i,
    {
        proof {
            assert(views[i as int] == list@[i as int].model());
        }
        if !cacheable_condition(&list[i]) {
            return false;
        }
        i = i + 1;
    }
    true
}

fn cacheable_clause(clause: &Option<Vec<Condition>>) -> (r: bool)
    ensures
        r == payload_only_clause(clause_model(*clause)),
    decreases clause,
{
    match clause {
        Some(list) => cacheable_list(list),
        None => true,
    }
}

/// Whether the selection of a filter can be kept until the payload index changes.
pub fn gpu_filter_cacheable(filter: &Filter) -> (r: bool)
    ensures
        r == payload_only(filter.model()),
    decreases filter,
{
    let min_cacheable = match &filter.min_should {
        Some(min_should) => cacheable_list(&min_should.conditions),
        None => true,
    };
    cacheable_clause(&filter.should) && min_cacheable && cacheable_clause(&filter.must)
        && cacheable_clause(&filter.must_not)
}

} // verus!
