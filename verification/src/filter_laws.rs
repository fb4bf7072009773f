//! What filters select, and what holds of filters that were factorized.

use vstd::prelude::*;

use crate::factorized_filter::{
    atom_lists, dedup, factorization_outcome, integer_atoms, lemma_dedup,
    lemma_plan_is_equivalent_to_filters, FactorizedFilterPlan, FactorizedFilterPlanError,
};
use crate::filter::{
    conditions_model, AnyVariants, AnyView, ConditionView, FieldView, Filter, FilterView,
    IntPayloadType, Match, MatchView, ValueVariants, ValueView,
};

verus! {

/// What a point has for a filter to look at.
pub ghost struct PointPayload {
    /// The integers that the point has at a key.
    pub integers: spec_fn(Seq<char>) -> Set<IntPayloadType>,
    /// Whether any other condition on a single point holds.
    pub holds: spec_fn(ConditionView) -> bool,
}

/// The condition on a field is a match and nothing else.
pub open spec fn is_plain_match(field: FieldView) -> bool {
    &&& field.matching is Some
    &&& field.range is None
    &&& field.geo_bounding_box is None
    &&& field.geo_radius is None
    &&& field.geo_polygon is None
    &&& field.values_count is None
    &&& field.is_empty is None
    &&& field.is_null is None
}

/// The condition on a field holds. A match with integers holds when the point has one of them.
pub open spec fn field_holds(field: FieldView, payload: PointPayload) -> bool {
    if is_plain_match(field) {
        match field.matching->0 {
            MatchView::Value(ValueView::Integer(value)) => exists|v: IntPayloadType|
                v == value && #[trigger] (payload.integers)(field.key).contains(v),
            MatchView::Any(AnyView::Integers(values)) => exists|v: IntPayloadType|
                #[trigger] values.contains(v) && (payload.integers)(field.key).contains(v),
            _ => (payload.holds)(ConditionView::Field(field)),
        }
    } else {
        (payload.holds)(ConditionView::Field(field))
    }
}

/// The condition holds.
pub open spec fn condition_holds(condition: ConditionView, payload: PointPayload) -> bool
    decreases condition,
{
    match condition {
        ConditionView::Field(field) => field_holds(field, payload),
        ConditionView::Filter(filter) => filter_holds(*filter, payload),
        _ => (payload.holds)(condition),
    }
}

/// Which of the conditions hold.
pub open spec fn which_hold(list: Seq<ConditionView>, payload: PointPayload) -> Seq<bool>
    decreases list,
{
    Seq::new(
        list.len(),
        |i: int|
            if 0 <= i < list.len() {
                condition_holds(list[i], payload)
            } else {
                false
            },
    )
}

/// Which of the conditions of a clause hold.
pub open spec fn clause_holds(
    clause: Option<Seq<ConditionView>>,
    payload: PointPayload,
) -> Option<Seq<bool>>
    decreases clause,
{
    match clause {
        Some(list) => Some(which_hold(list, payload)),
        None => None,
    }
}

/// How many of the conditions of a minimum clause hold, and how many have to.
pub open spec fn minimum_holds(
    clause: Option<(Seq<ConditionView>, int)>,
    payload: PointPayload,
) -> Option<(Seq<bool>, int)>
    decreases clause,
{
    match clause {
        Some((list, count)) => Some((which_hold(list, payload), count)),
        None => None,
    }
}

/// All are true.
pub open spec fn all_true(list: Seq<bool>) -> bool {
    forall|i: int| 0 <= i < list.len() ==> #[trigger] list[i]
}

/// Some are true.
pub open spec fn some_true(list: Seq<bool>) -> bool {
    exists|i: int| 0 <= i < list.len() && #[trigger] list[i]
}

/// How many are true.
pub open spec fn count_true(list: Seq<bool>) -> nat
    decreases list.len(),
{
    if list.len() == 0 {
        0
    } else {
        count_true(list.drop_last()) + if list.last() {
            1nat
        } else {
            0nat
        }
    }
}

/// The filter selects the point: all conditions of `must`, some of `should`, enough of
/// `min_should` and none of `must_not` hold, each as far as the filter has the clause.
pub open spec fn filter_holds(filter: FilterView, payload: PointPayload) -> bool
    decreases filter,
{
    &&& match clause_holds(filter.must, payload) {
        Some(list) => all_true(list),
        None => true,
    }
    &&& match clause_holds(filter.should, payload) {
        Some(list) => some_true(list),
        None => true,
    }
    &&& match minimum_holds(filter.min_should, payload) {
        Some((list, count)) => count_true(list) >= count,
        None => true,
    }
    &&& match clause_holds(filter.must_not, payload) {
        Some(list) => !some_true(list),
        None => true,
    }
}

/// The plan gives the point to a query: the point has the value of an atom that the query owns.
pub open spec fn plan_gives(plan: FactorizedFilterPlan, q: int, payload: PointPayload) -> bool {
    exists|a: int|
        {
            &&& 0 <= a < plan.spec_atoms().len()
            &&& #[trigger] plan.spec_atoms()[a].spec_query_mask().has(q)
            &&& (payload.integers)(plan.spec_key()).contains(plan.atom_values()[a])
        }
}

/// A filter of the supported shape selects the points that have one of its integers.
proof fn lemma_atoms_are_selected(filter: Filter, payload: PointPayload)
    requires
        integer_atoms(filter) is Some,
    ensures
        filter_holds(filter.model(), payload) <==> exists|v: IntPayloadType|
            #[trigger] (integer_atoms(filter)->0).1.contains(v) && (payload.integers)(
                (integer_atoms(filter)->0).0,
            ).contains(v),
{
    let (key, values) = integer_atoms(filter)->0;
    let must = filter.must->0@;
    let field = must[0]->Field_0;
    let model = filter.model();
    reveal_with_fuel(filter_holds, 2);
    reveal_with_fuel(condition_holds, 2);
    assert(conditions_model(must).len() == 1);
    assert(conditions_model(must)[0] == must[0].model());
    let held = which_hold(conditions_model(must), payload);
    assert(held.len() == 1);
    assert(held[0] == field_holds(field@, payload));
    assert(model.must == Some(conditions_model(must)));
    assert(clause_holds(model.must, payload) == Some(held));
    assert(model.should is None && model.min_should is None && model.must_not is None);
    assert(clause_holds(model.should, payload) is None);
    assert(minimum_holds(model.min_should, payload) is None);
    assert(clause_holds(model.must_not, payload) is None);
    assert(filter_holds(model, payload) == all_true(held));
    assert(all_true(held) == held[0]) by {
        if held[0] {
            assert forall|i: int| 0 <= i < held.len() implies #[trigger] held[i] by {}
        }
    }
    assert(is_plain_match(field@));
    assert(field@.key == key);
    let integers = (payload.integers)(key);
    match field.matching->0 {
        Match::Value(ValueVariants::Integer(value)) => {
            assert(field@.matching == Some(MatchView::Value(ValueView::Integer(value as int))));
            assert(values == seq![value]);
            assert(values[0] == value);
            assert(values.contains(value));
            assert(field_holds(field@, payload) == integers.contains(value));
            assert forall|v: IntPayloadType| #[trigger] values.contains(v) implies v == value by {}
            if filter_holds(model, payload) {
                assert(values.contains(value) && integers.contains(value));
            }
        },
        Match::Any(AnyVariants::Integers(list)) => {
            assert(field@.matching == Some(MatchView::Any(AnyView::Integers(list@.to_set()))));
            assert(values == list@);
            if field_holds(field@, payload) {
                let v = choose|v: IntPayloadType| #[trigger]
                    list@.to_set().contains(v) && integers.contains(v);
                assert(values.contains(v));
            }
            if exists|v: IntPayloadType| #[trigger]
                values.contains(v) && integers.contains(v) {
                let v = choose|v: IntPayloadType| #[trigger]
                    values.contains(v) && integers.contains(v);
                assert(field@.matching->0->Any_0->Integers_0.contains(v));
                assert(field_holds(field@, payload));
            }
        },
        _ => {},
    }
}

/// A plan is equivalent to the filters that it was built from: a point satisfies the filter of a
/// query exactly when it has the value of one of the atoms of that query.
pub proof fn lemma_plan_selects_like_filters(
    filters: Seq<Filter>,
    plan: FactorizedFilterPlan,
    q: int,
    payload: PointPayload,
)
    requires
        factorization_outcome(filters, Ok(plan)),
        0 <= q < filters.len(),
    ensures
        filter_holds(filters[q].model(), payload) <==> plan_gives(plan, q, payload),
        filter_holds(filters[q].model(), payload) <==> exists|k: int|
            0 <= k < plan.spec_query_atoms()[q].len() && (payload.integers)(
                plan.spec_key(),
            ).contains(plan.atom_values()[(#[trigger] plan.spec_query_atoms()[q][k]) as int]),
{
    let filter = filters[q];
    let queries = atom_lists(filters);
    let (key, given) = integer_atoms(filter)->0;
    let held = (payload.integers)(key);
    assert(integer_atoms(filters[q]) is Some);
    assert(key == plan.spec_key());
    lemma_atoms_are_selected(filter, payload);
    lemma_dedup(given);
    assert(queries[q] == dedup(given));
    if filter_holds(filter.model(), payload) {
        let v = choose|v: IntPayloadType| #[trigger] given.contains(v) && held.contains(v);
        lemma_plan_is_equivalent_to_filters(filters, plan, q, v);
        let k = choose|k: int|
            0 <= k < plan.spec_query_atoms()[q].len() && plan.atom_values()[(
            #[trigger] plan.spec_query_atoms()[q][k]) as int] == v;
        let a = plan.spec_query_atoms()[q][k] as int;
        assert(dedup(given).contains(v));
        assert(plan.spec_atoms()[a].spec_query_mask().has(q));
        assert(plan_gives(plan, q, payload));
    }
    if plan_gives(plan, q, payload) {
        let a = choose|a: int|
            {
                &&& 0 <= a < plan.spec_atoms().len()
                &&& #[trigger] plan.spec_atoms()[a].spec_query_mask().has(q)
                &&& held.contains(plan.atom_values()[a])
            };
        assert(queries[q].contains(plan.atom_values()[a]));
        assert(dedup(given).contains(plan.atom_values()[a]));
        assert(given.contains(plan.atom_values()[a]));
    }
    if exists|k: int|
        0 <= k < plan.spec_query_atoms()[q].len() && held.contains(
            plan.atom_values()[(#[trigger] plan.spec_query_atoms()[q][k]) as int],
        ) {
        let k = choose|k: int|
            0 <= k < plan.spec_query_atoms()[q].len() && held.contains(
                plan.atom_values()[(#[trigger] plan.spec_query_atoms()[q][k]) as int],
            );
        let v = plan.atom_values()[plan.spec_query_atoms()[q][k] as int];
        lemma_plan_is_equivalent_to_filters(filters, plan, q, v);
        assert(given.contains(v));
    }
}

/// The filter asks for nothing but one or some integers at a key.
pub open spec fn is_integer_filter(filter: FilterView, key: Seq<char>) -> bool {
    &&& filter.should is None
    &&& filter.min_should is None
    &&& filter.must_not is None
    &&& filter.must matches Some(list)
    &&& list.len() == 1
    &&& list[0] matches ConditionView::Field(field)
    &&& field.key == key
    &&& is_plain_match(field)
    &&& match field.matching->0 {
        MatchView::Value(ValueView::Integer(_)) => true,
        MatchView::Any(AnyView::Integers(_)) => true,
        _ => false,
    }
}

/// Filters that ask for nothing but integers at one key have a plan, unless they list the integers
/// in orders that conflict.
pub proof fn lemma_integer_filters_have_a_plan(
    filters: Seq<Filter>,
    key: Seq<char>,
    r: Result<FactorizedFilterPlan, FactorizedFilterPlanError>,
)
    requires
        factorization_outcome(filters, r),
        filters.len() > 0,
        forall|i: int|
            0 <= i < filters.len() ==> is_integer_filter((#[trigger] filters[i]).model(), key),
    ensures
        r is Ok || r == Err::<FactorizedFilterPlan, FactorizedFilterPlanError>(
            FactorizedFilterPlanError::IncompatibleAtomOrder,
        ),
        r matches Ok(plan) ==> plan.spec_key() == key,
{
    assert forall|i: int| 0 <= i < filters.len() implies integer_atoms(#[trigger] filters[i])
        is Some && (integer_atoms(filters[i])->0).0 == key by {
        let filter = filters[i];
        assert(is_integer_filter(filter.model(), key));
        let must = filter.must->0@;
        assert(conditions_model(must)[0] == must[0].model());
    }
    assert(integer_atoms(filters[0]) is Some);
    match r {
        Ok(_) => {},
        Err(FactorizedFilterPlanError::EmptyBatch) => {},
        Err(FactorizedFilterPlanError::UnsupportedFilterShape { query_index }) => {
            assert(integer_atoms(filters[query_index as int]) is Some);
        },
        Err(FactorizedFilterPlanError::DifferentKey { query_index, expected, actual }) => {
            assert(integer_atoms(filters[query_index as int]) is Some);
        },
        Err(FactorizedFilterPlanError::IncompatibleAtomOrder) => {},
    }
}

} // verus!
