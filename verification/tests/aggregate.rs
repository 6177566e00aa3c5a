use vardadb::query_planner::ir::{AggregateFunction, AggregateSpec, FieldPath, LogicalExpr, QueryValue, UnaryOp};
use vardadb::query_planner::operators::aggregate::{
    compile_aggregates, group_evaluated_rows, key_debug_text, text_sorts_before, PlannedArg,
};
use vardadb::query_planner::operators::PlannerError;

fn spec(function: AggregateFunction, expr: Option<LogicalExpr>, alias: &str) -> AggregateSpec {
    AggregateSpec { function, expr, alias: alias.to_string() }
}

fn field(name: &str) -> LogicalExpr {
    LogicalExpr::Field(FieldPath::field(name))
}

fn ints(v: &[i64]) -> Vec<QueryValue> {
    v.iter().map(|i| QueryValue::Int(*i)).collect()
}

#[test]
fn aggregates_map_to_registered_functions() {
    let specs = vec![
        spec(AggregateFunction::Count, None, "n"),
        spec(AggregateFunction::Sum, Some(field("price")), "total"),
        spec(AggregateFunction::Mean, Some(field("price")), "avg"),
        spec(AggregateFunction::Min, None, "lo"),
        spec(AggregateFunction::Max, Some(field("age")), "hi"),
    ];
    let planned = compile_aggregates(&specs).unwrap();
    let names: Vec<&str> = planned.iter().map(|p| p.function).collect();
    assert_eq!(names, vec!["count", "math::sum", "math::mean", "math::min", "math::max"]);
    assert!(matches!(planned[0].arg, PlannedArg::RowCount));
    assert!(matches!(planned[1].arg, PlannedArg::Expr(_)));
    assert!(matches!(planned[3].arg, PlannedArg::NoArg));
    assert_eq!(planned[4].alias, "hi");
}

#[test]
fn uncompilable_arguments_are_unsupported() {
    let call = LogicalExpr::Function { name: "upper".to_string(), args: vec![] };
    let nested = LogicalExpr::Unary { op: UnaryOp::Neg, expr: Box::new(call) };
    let specs = vec![spec(AggregateFunction::Count, None, "n"), spec(AggregateFunction::Sum, Some(nested), "s")];
    match compile_aggregates(&specs) {
        Err(PlannerError::Unsupported(m)) => assert_eq!(m, "unknown function \"\""),
        _ => panic!("expected unsupported"),
    }
}

#[test]
fn key_text_is_the_debug_tuple() {
    assert_eq!(key_debug_text(&ints(&[1, -2])), "[Int(1), Int(-2)]");
    assert_eq!(key_debug_text(&vec![]), "[]");
    assert_eq!(key_debug_text(&vec![QueryValue::String("a".into())]), "[String(\"a\")]");
    assert!(text_sorts_before("ab", "b"));
    assert!(text_sorts_before("a", "ab"));
    assert!(!text_sorts_before("ab", "ab"));
}

#[test]
fn rows_group_by_key_in_key_text_order() {
    let rows = vec![
        (ints(&[2]), ints(&[5])),
        (vec![QueryValue::String("a".into())], ints(&[1])),
        (ints(&[10]), ints(&[7])),
        (ints(&[2]), ints(&[6])),
        (vec![QueryValue::Null], ints(&[0])),
    ];
    let groups = group_evaluated_rows(&rows, false);
    let keys: Vec<String> = groups.iter().map(|(k, _)| key_debug_text(k)).collect();
    assert_eq!(keys, vec!["[Int(10)]", "[Int(2)]", "[Null]", "[String(\"a\")]"]);
    assert_eq!(groups[1].1, vec![ints(&[5]), ints(&[6])]);
    assert_eq!(groups[0].1, vec![ints(&[7])]);
}

#[test]
fn global_aggregation_over_no_rows_has_one_group() {
    let groups = group_evaluated_rows(&vec![], true);
    assert_eq!(groups.len(), 1);
    assert!(groups[0].0.is_empty() && groups[0].1.is_empty());
    assert!(group_evaluated_rows(&vec![], false).is_empty());
    let one = group_evaluated_rows(&vec![(vec![], ints(&[3])), (vec![], ints(&[4]))], true);
    assert_eq!(one.len(), 1);
    assert_eq!(one[0].1, vec![ints(&[3]), ints(&[4])]);
}
