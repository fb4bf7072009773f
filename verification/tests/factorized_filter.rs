use vector_segment::factorized_filter::{FactorizedFilterPlan, FactorizedFilterPlanError};
use vector_segment::filter::{AnyVariants, Condition, FieldCondition, Filter, Match, ValueVariants};

fn key(value: &str) -> String {
    value.to_owned()
}

fn value_filter(field: &str, value: i64) -> Filter {
    Filter::new_must(Condition::Field(FieldCondition::new_match(
        key(field),
        Match::Value(ValueVariants::Integer(value)),
    )))
}

fn any_filter(field: &str, values: Vec<i64>) -> Filter {
    Filter::new_must(Condition::Field(FieldCondition::new_match(
        key(field),
        Match::Any(AnyVariants::Integers(values)),
    )))
}

fn values(plan: &FactorizedFilterPlan) -> Vec<i64> {
    plan.atoms().iter().map(|atom| atom.value()).collect()
}

#[test]
fn factorizes_value_and_any_by_unique_atom() {
    let filters = [
        value_filter("group_id", 10),
        any_filter("group_id", vec![10, 20, 30]),
        any_filter("group_id", vec![20, 30]),
    ];

    let plan = FactorizedFilterPlan::try_from_filters(&filters).unwrap();

    assert_eq!(plan.key(), &key("group_id"));
    assert_eq!(plan.query_count(), 3);
    assert_eq!(values(&plan), vec![10, 20, 30]);
    assert_eq!(plan.atoms()[0].query_indices(), &[0, 1]);
    assert_eq!(plan.atoms()[0].reference_count(), 2);
    assert!(plan.atoms()[0].query_mask().contains(0));
    assert!(plan.atoms()[0].query_mask().contains(1));
    assert!(!plan.atoms()[0].query_mask().contains(2));
    assert_eq!(plan.atoms()[0].query_mask().count_ones(), 2);
    assert_eq!(plan.atoms()[1].query_indices(), &[1, 2]);
    assert_eq!(plan.atoms()[2].query_indices(), &[1, 2]);
    assert_eq!(plan.query_atoms(0), Some([0].as_slice()));
    assert_eq!(plan.query_atoms(1), Some([0, 1, 2].as_slice()));
    assert_eq!(plan.query_atoms(2), Some([1, 2].as_slice()));
}

#[test]
fn accepts_empty_any_as_an_empty_query_atom_set() {
    let plan = FactorizedFilterPlan::try_from_filters(&[any_filter("group_id", vec![])]).unwrap();

    assert_eq!(plan.query_count(), 1);
    assert!(plan.atoms().is_empty());
    assert_eq!(plan.query_atoms(0), Some([].as_slice()));
}

#[test]
fn duplicate_atoms_count_each_query_once() {
    let filters = [
        any_filter("group_id", vec![7, 7, 9, 7, 9]),
        value_filter("group_id", 7),
    ];

    let plan = FactorizedFilterPlan::try_from_filters(&filters).unwrap();

    assert_eq!(plan.query_atoms(0), Some([0, 1].as_slice()));
    assert_eq!(plan.atoms()[0].value(), 7);
    assert_eq!(plan.atoms()[0].query_indices(), &[0, 1]);
    assert_eq!(plan.atoms()[0].reference_count(), 2);
    assert_eq!(plan.atoms()[1].value(), 9);
    assert_eq!(plan.atoms()[1].query_indices(), &[0]);
    assert_eq!(plan.atoms()[1].reference_count(), 1);
}

#[test]
fn preserves_non_sorted_atom_order_for_stock_ties() {
    let filters = [
        any_filter("group_id", vec![20, 10]),
        value_filter("group_id", 20),
    ];

    let plan = FactorizedFilterPlan::try_from_filters(&filters).unwrap();

    assert_eq!(values(&plan), vec![20, 10]);
    assert_eq!(plan.query_atoms(0), Some([0, 1].as_slice()));
}

#[test]
fn rejects_conflicting_atom_orders() {
    let error = FactorizedFilterPlan::try_from_filters(&[
        any_filter("group_id", vec![20, 10]),
        any_filter("group_id", vec![10, 20]),
    ])
    .unwrap_err();

    assert!(matches!(
        error,
        FactorizedFilterPlanError::IncompatibleAtomOrder
    ));
}

#[test]
fn rejects_different_keys() {
    let error = FactorizedFilterPlan::try_from_filters(&[
        value_filter("group_id", 1),
        value_filter("tenant_id", 1),
    ])
    .unwrap_err();

    assert!(matches!(
        error,
        FactorizedFilterPlanError::DifferentKey { query_index: 1, .. }
    ));
}

#[test]
fn rejects_filter_and_field_residuals() {
    let mut filter_with_clause_residual = value_filter("group_id", 1);
    filter_with_clause_residual.should = Some(vec![Condition::Field(FieldCondition::new_match(
        key("group_id"),
        Match::Value(ValueVariants::Integer(2)),
    ))]);
    assert!(matches!(
        FactorizedFilterPlan::try_from_filters(&[filter_with_clause_residual]),
        Err(FactorizedFilterPlanError::UnsupportedFilterShape { query_index: 0 })
    ));

    let mut field_with_residual = FieldCondition::new_match(
        key("group_id"),
        Match::Value(ValueVariants::Integer(1)),
    );
    field_with_residual.is_empty = Some(false);
    let filter_with_field_residual = Filter::new_must(Condition::Field(field_with_residual));
    assert!(matches!(
        FactorizedFilterPlan::try_from_filters(&[filter_with_field_residual]),
        Err(FactorizedFilterPlanError::UnsupportedFilterShape { query_index: 0 })
    ));
}

#[test]
fn query_mask_supports_more_than_sixty_four_queries() {
    let filters: Vec<Filter> = (0..130)
        .map(|query_index| value_filter("group_id", (query_index % 2) as i64))
        .collect();

    let plan = FactorizedFilterPlan::try_from_filters(&filters).unwrap();
    let odd_queries = &plan.atoms()[1];

    assert_eq!(odd_queries.reference_count(), 65);
    assert_eq!(odd_queries.query_mask().words().len(), 3);
    assert!(odd_queries.query_mask().contains(1));
    assert!(odd_queries.query_mask().contains(65));
    assert!(odd_queries.query_mask().contains(129));
    assert!(!odd_queries.query_mask().contains(128));
    assert!(!odd_queries.query_mask().contains(130));
}

#[test]
fn references_of_all_atoms_add_up() {
    let filters = [
        any_filter("group_id", vec![1, 2, 3]),
        any_filter("group_id", vec![2, 3]),
        value_filter("group_id", 3),
    ];
    let refs: Vec<&Filter> = filters.iter().collect();
    let plan = FactorizedFilterPlan::try_from_filter_refs(&refs).unwrap();
    assert_eq!(plan.atom_reference_count(), 6);
    assert_eq!(plan.query_atoms(3), None);
}

#[test]
fn an_empty_batch_is_rejected() {
    let error = FactorizedFilterPlan::try_from_filters(&[]).unwrap_err();
    assert!(matches!(error, FactorizedFilterPlanError::EmptyBatch));
}

#[test]
fn other_kinds_of_match_are_rejected() {
    let filter = Filter::new_must(Condition::Field(FieldCondition::new_match(
        key("group_id"),
        Match::Value(ValueVariants::Keyword("a".to_owned())),
    )));
    let filters = [value_filter("group_id", 1), filter];
    let error = FactorizedFilterPlan::try_from_filters(&filters).unwrap_err();
    assert!(matches!(
        error,
        FactorizedFilterPlanError::UnsupportedFilterShape { query_index: 1 }
    ));
}

#[test]
fn errors_tell_what_is_wrong() {
    let message = |filters: &[Filter]| {
        FactorizedFilterPlan::try_from_filters(filters)
            .unwrap_err()
            .message()
    };
    assert_eq!(message(&[]), "cannot factorize an empty filter batch");
    assert_eq!(
        message(&[value_filter("group_id", 1), Filter::new()]),
        "query 1 has an unsupported filter shape"
    );
    assert_eq!(
        message(&[value_filter("group_id", 1), value_filter("tenant_id", 1)]),
        "query 1 uses key tenant_id, expected shared key group_id"
    );
    assert_eq!(
        message(&[
            any_filter("group_id", vec![1, 2]),
            any_filter("group_id", vec![2, 1])
        ]),
        "query atom orders conflict and cannot preserve stock tie semantics"
    );
}

#[test]
fn sharing_is_what_makes_a_plan_worthwhile() {
    let shares = |a, b| {
        FactorizedFilterPlan::try_from_filters(&[
            any_filter("group_id", a),
            any_filter("group_id", b),
        ])
        .unwrap()
        .shares_atoms()
    };
    assert!(shares(vec![1, 2], vec![2, 3]));
    assert!(!shares(vec![1, 2], vec![3]));
}

#[test]
fn references_count_alike_from_atoms_and_from_queries() {
    for (lists, atoms, references) in [
        (vec![vec![1, 2, 3], vec![2, 3], vec![3]], 3, 6),
        (vec![vec![1, 2], vec![3], vec![]], 3, 3),
        (vec![vec![5, 5, 6], vec![6]], 2, 3),
    ] {
        let filters: Vec<Filter> =
            lists.into_iter().map(|list| any_filter("group_id", list)).collect();
        let plan = FactorizedFilterPlan::try_from_filters(&filters).unwrap();
        let by_atom: usize = plan.atoms().iter().map(|atom| atom.reference_count()).sum();
        let by_query: usize =
            (0..filters.len()).map(|query| plan.query_atoms(query).unwrap().len()).sum();
        assert_eq!(plan.atoms().len(), atoms);
        assert_eq!((by_atom, by_query), (references, references));
        assert_eq!(plan.atom_reference_count(), references);
    }
}
