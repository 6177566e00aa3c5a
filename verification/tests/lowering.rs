use vardadb::query_planner::ir::{FieldPath, FilterOp, FilterPredicate, LogicalFilter, QueryValue, SortDirection};
use vardadb::query_planner::lowering::{canonical, is_operator_map, lower_filter_map, lower_sort_map};

fn obj(entries: Vec<(&str, QueryValue)>) -> Vec<(String, QueryValue)> {
    entries.into_iter().map(|(k, v)| (k.to_string(), v)).collect()
}

fn num(n: i64) -> QueryValue {
    QueryValue::Int(n)
}

fn pred(field: &str, op: FilterOp, value: QueryValue) -> LogicalFilter {
    LogicalFilter::Predicate(FilterPredicate { path: FieldPath::field(field), op, value })
}

#[test]
fn scalar_condition_means_equality() {
    let f = lower_filter_map(&obj(vec![("name", QueryValue::String("ada".to_string()))]));
    assert_eq!(f, LogicalFilter::And(vec![pred("name", FilterOp::Eq, QueryValue::String("ada".to_string()))]));
}

#[test]
fn operator_objects_give_predicates_in_key_order() {
    let cond = QueryValue::Object(obj(vec![("lt", num(10)), ("gt", num(5))]));
    let f = lower_filter_map(&obj(vec![("age", cond)]));
    assert_eq!(
        f,
        LogicalFilter::And(vec![LogicalFilter::And(vec![pred("age", FilterOp::Lt, num(10)), pred("age", FilterOp::Gt, num(5))])])
    );
    let single = lower_filter_map(&obj(vec![("age", QueryValue::Object(obj(vec![("ge", num(1))])))]));
    assert_eq!(single, LogicalFilter::And(vec![pred("age", FilterOp::Ge, num(1))]));
}

#[test]
fn between_lowers_to_inclusive_range_and_ignores_wrong_arity() {
    let range = QueryValue::Object(obj(vec![("between", QueryValue::List(vec![num(1), num(3)]))]));
    assert_eq!(
        lower_filter_map(&obj(vec![("age", range)])),
        LogicalFilter::And(vec![LogicalFilter::And(vec![pred("age", FilterOp::Ge, num(1)), pred("age", FilterOp::Le, num(3))])])
    );
    let bad = QueryValue::Object(obj(vec![("between", QueryValue::List(vec![num(1)]))]));
    assert_eq!(lower_filter_map(&obj(vec![("age", bad)])), LogicalFilter::And(vec![LogicalFilter::And(vec![])]));
}

#[test]
fn unknown_operators_pass_and_plain_objects_filter_relations() {
    let unknown = QueryValue::Object(obj(vec![("near", num(1)), ("fuzzy", num(2))]));
    assert_eq!(
        lower_filter_map(&obj(vec![("loc", unknown)])),
        LogicalFilter::And(vec![pred("loc", FilterOp::NearVector, num(1))])
    );
    let relation = QueryValue::Object(obj(vec![("city", QueryValue::String("Oslo".to_string()))]));
    assert_eq!(
        lower_filter_map(&obj(vec![("address", relation)])),
        LogicalFilter::And(vec![LogicalFilter::Relation {
            field: "address".to_string(),
            target_type: String::new(),
            filter: Box::new(LogicalFilter::And(vec![pred("city", FilterOp::Eq, QueryValue::String("Oslo".to_string()))])),
        }])
    );
}

#[test]
fn logical_keys_nest_filters() {
    let or = QueryValue::List(vec![
        QueryValue::Object(obj(vec![("a", num(1))])),
        num(5),
        QueryValue::Object(obj(vec![("b", num(2))])),
    ]);
    let not = QueryValue::Object(obj(vec![("c", num(3))]));
    let f = lower_filter_map(&obj(vec![("or", or), ("not", not), ("and", QueryValue::List(vec![]))]));
    assert_eq!(
        f,
        LogicalFilter::And(vec![
            LogicalFilter::Or(vec![
                LogicalFilter::And(vec![pred("a", FilterOp::Eq, num(1))]),
                LogicalFilter::And(vec![pred("b", FilterOp::Eq, num(2))]),
            ]),
            LogicalFilter::Not(Box::new(LogicalFilter::And(vec![pred("c", FilterOp::Eq, num(3))]))),
        ])
    );
    assert_eq!(f.top_level_predicates().len(), 0);
    assert!(!f.is_empty_conjunction());
    assert!(lower_filter_map(&obj(vec![])).is_empty_conjunction());
}

#[test]
fn predicate_values_are_put_in_map_order() {
    let point = QueryValue::Object(obj(vec![("lon", num(1)), ("lat", num(2)), ("lon", num(7))]));
    let f = lower_filter_map(&obj(vec![("loc", QueryValue::Object(obj(vec![("within", point)])))]));
    let expected = QueryValue::Object(obj(vec![("lat", num(2)), ("lon", num(7))]));
    assert_eq!(f, LogicalFilter::And(vec![pred("loc", FilterOp::Within, expected)]));
    assert_eq!(
        canonical(&QueryValue::List(vec![QueryValue::Object(obj(vec![("b", num(1)), ("a", num(2))]))])),
        QueryValue::List(vec![QueryValue::Object(obj(vec![("a", num(2)), ("b", num(1))]))])
    );
}

#[test]
fn top_level_predicates_flatten_conjunctions() {
    let f = LogicalFilter::And(vec![
        pred("a", FilterOp::Eq, num(1)),
        LogicalFilter::And(vec![pred("b", FilterOp::Gt, num(2))]),
        LogicalFilter::Or(vec![pred("c", FilterOp::Eq, num(3))]),
    ]);
    let names: Vec<Option<&str>> = f.top_level_predicates().iter().map(|p| p.path.single()).collect();
    assert_eq!(names, vec![Some("a"), Some("b")]);
}

#[test]
fn operator_maps_and_sort_arguments() {
    assert!(is_operator_map(&obj(vec![("x", num(1)), ("between", num(2))])));
    assert!(!is_operator_map(&obj(vec![("x", num(1))])));
    let keys = lower_sort_map(&obj(vec![
        ("age", QueryValue::Enum("DESC".to_string())),
        ("name", QueryValue::String("ASC".to_string())),
        ("rank", QueryValue::String("DESC".to_string())),
    ]));
    assert_eq!(keys.len(), 3);
    assert_eq!(keys[0].direction, SortDirection::Desc);
    assert_eq!(keys[1].direction, SortDirection::Asc);
    assert_eq!(keys[2].direction, SortDirection::Desc);
    assert_eq!(keys[1].path.single(), Some("name"));
}
