use std::cmp::Ordering;

use vardadb::query_planner::adapters::{runtime_for_test_stub, StoredValue, TestRuntime};
use vardadb::query_planner::ir::{FieldPath, FieldSegment, OrderKey, QueryValue, SortDirection};
use vardadb::query_planner::operators::sort::{compare_key_vectors, compare_stored, describe_keys, stable_order};
use vardadb::query_planner::operators::{
    ExecContext, ExplainCapture, FlowResult, Operator, OperatorKind, OutputOrdering, SortOperator, VecSource,
};

fn key(field: &str, direction: SortDirection) -> OrderKey {
    OrderKey { path: FieldPath::field(field), direction }
}

fn num(v: f64) -> Option<QueryValue> {
    Some(QueryValue::Float(v.to_bits()))
}

fn ival(v: i64) -> Option<QueryValue> {
    Some(QueryValue::Int(v))
}

fn s(v: &str) -> Option<QueryValue> {
    Some(QueryValue::String(v.to_string()))
}

fn stored(uid: u64, field: &str, value: QueryValue) -> StoredValue {
    StoredValue { uid, field: field.to_string(), value }
}

fn run(op: &Operator, runtime: &TestRuntime) -> Vec<Vec<u64>> {
    let mut ctx = ExecContext::new(runtime, "db");
    match op.execute(&mut ctx) {
        FlowResult::Rows(batches) => batches.into_iter().map(|b| b.0.into_iter().map(|e| e.uid).collect()).collect(),
        other => panic!("expected rows, got error={}", other.is_error()),
    }
}

#[test]
fn scalar_comparison_matches_legacy_semantics() {
    assert_eq!(compare_stored(&num(1.0), &num(2.0)), Ordering::Less);
    assert_eq!(compare_stored(&num(2.0), &num(1.0)), Ordering::Greater);
    assert_eq!(compare_stored(&None, &num(0.0)), Ordering::Less);
    assert_eq!(compare_stored(&num(0.0), &None), Ordering::Greater);
    assert_eq!(compare_stored(&None, &None), Ordering::Equal);

    assert_eq!(compare_stored(&s("a"), &s("b")), Ordering::Less);
    // Mixed kinds fall back to Equal exactly like legacy.
    assert_eq!(compare_stored(&s("a"), &num(1.0)), Ordering::Equal);
}

#[test]
fn numbers_compare_as_doubles() {
    assert_eq!(compare_stored(&ival(2), &num(2.5)), Ordering::Less);
    assert_eq!(compare_stored(&ival(3), &num(2.5)), Ordering::Greater);
    assert_eq!(compare_stored(&ival(2), &num(2.0)), Ordering::Equal);
    assert_eq!(compare_stored(&ival(-3), &ival(2)), Ordering::Less);
    assert_eq!(compare_stored(&num(-0.0), &num(0.0)), Ordering::Equal);
    assert_eq!(compare_stored(&num(-1.5), &num(-0.5)), Ordering::Less);
    assert_eq!(compare_stored(&num(f64::INFINITY), &ival(i64::MAX)), Ordering::Greater);
    assert_eq!(compare_stored(&num(f64::NEG_INFINITY), &ival(i64::MIN)), Ordering::Less);
    assert_eq!(compare_stored(&num(f64::NAN), &ival(1)), Ordering::Equal);
    // Integers beyond 2^53 compare as the doubles they convert to.
    assert_eq!(compare_stored(&ival(9007199254740992), &ival(9007199254740993)), Ordering::Equal);
    assert_eq!(compare_stored(&ival(9007199254740992), &ival(9007199254740994)), Ordering::Less);
    assert_eq!(compare_stored(&ival(i64::MAX), &num(9223372036854775808.0)), Ordering::Equal);
    assert_eq!(compare_stored(&ival(i64::MIN), &num(-9223372036854775808.0)), Ordering::Equal);
    // Every pairing agrees with comparing `as f64`.
    let samples: Vec<i64> = vec![
        0, 1, -1, 7, -7, 1 << 52, (1 << 53) - 1, 1 << 53, (1 << 53) + 1, (1 << 53) + 3, (1 << 60) + 511,
        (1 << 60) + 512, (1 << 60) + 513, i64::MAX, i64::MIN, -(1 << 53) - 1,
    ];
    for &a in &samples {
        for &b in &samples {
            let want = (a as f64).partial_cmp(&(b as f64)).unwrap();
            assert_eq!(compare_stored(&ival(a), &ival(b)), want, "{a} vs {b}");
            assert_eq!(compare_stored(&ival(a), &num(b as f64)), want, "{a} vs {b} as double");
        }
    }
    assert_eq!(compare_stored(&s("abc"), &s("abd")), Ordering::Less);
    assert_eq!(compare_stored(&s("ab"), &s("abc")), Ordering::Less);
    assert_eq!(compare_stored(&s("b"), &s("abc")), Ordering::Greater);
    assert_eq!(compare_stored(&s("x"), &s("x")), Ordering::Equal);
    assert_eq!(compare_stored(&Some(QueryValue::Bool(true)), &Some(QueryValue::Bool(false))), Ordering::Equal);
}

#[test]
fn key_vectors_compare_lexicographically_with_directions() {
    let keys = vec![key("a", SortDirection::Asc), key("b", SortDirection::Desc)];
    assert_eq!(compare_key_vectors(&[ival(1), ival(5)], &[ival(2), ival(0)], &keys), Ordering::Less);
    assert_eq!(compare_key_vectors(&[ival(1), ival(5)], &[ival(1), ival(7)], &keys), Ordering::Greater);
    assert_eq!(compare_key_vectors(&[ival(1), ival(5)], &[ival(1), ival(5)], &keys), Ordering::Equal);
    // A missing trailing value is absent (sorts first ascending, last here).
    assert_eq!(compare_key_vectors(&[ival(1)], &[ival(1), ival(5)], &keys), Ordering::Greater);
    assert_eq!(compare_key_vectors(&[], &[], &[]), Ordering::Equal);
    assert_eq!(stable_order(&vec![vec![ival(3)], vec![ival(1)], vec![ival(3)], vec![ival(2)]], &[key("a", SortDirection::Asc)]), vec![1, 3, 0, 2]);
}

#[test]
fn sort_eliminated_when_input_already_ordered() {
    let source = VecSource::ordered("declaring_source", vec![], "age", SortDirection::Asc);
    let op = SortOperator::new(Box::new(Operator::Values(source)), vec![key("age", SortDirection::Asc)]);
    assert!(op.eliminated());
    assert!(op.output_ordering().satisfies(&key("age", SortDirection::Asc)));

    // Conflicting direction is not satisfied and must not eliminate.
    assert!(!op.output_ordering().satisfies(&key("age", SortDirection::Desc)));

    // Unordered input never eliminates.
    let unordered = SortOperator::new(
        Box::new(Operator::Values(VecSource::new("declaring_source", vec![]))),
        vec![key("age", SortDirection::Asc)],
    );
    assert!(!unordered.eliminated());
}

#[test]
fn sort_metadata_and_details_render() {
    let runtime = runtime_for_test_stub();
    let mut ctx = ExecContext::new(&runtime, "db");
    ctx.explain = ExplainCapture::new(true);
    let op = SortOperator::new(
        Box::new(Operator::Values(VecSource::new("declaring_source", vec![]))),
        vec![key("age", SortDirection::Desc), key("name", SortDirection::Asc)],
    );
    assert_eq!(op.detail(), "sort(age desc, name asc)");
    match op.execute(&mut ctx) {
        FlowResult::Rows(_) => {}
        other => panic!("expected rows, got error={}", other.is_error()),
    }
    // The source records its own statistic before the sort's.
    assert_eq!(ctx.explain.stats().last().unwrap().notes[0], "sorted 0 rows");
}

#[test]
fn sort_orders_rows_by_stored_values_and_keeps_ties_stable() {
    let runtime = TestRuntime::with_stored(
        vec![],
        vec![
            stored(1, "age", QueryValue::Int(30)),
            stored(1, "name", QueryValue::String("bo".into())),
            stored(2, "age", QueryValue::Int(25)),
            stored(2, "name", QueryValue::String("al".into())),
            stored(3, "age", QueryValue::Int(30)),
            stored(3, "name", QueryValue::String("al".into())),
            stored(5, "age", QueryValue::Float(27.5f64.to_bits())),
        ],
    );
    let input = || Box::new(Operator::Values(VecSource::new("rows", vec![1, 2, 3, 4, 5])));
    // Missing values (row 4) first ascending; ties (1, 3) keep input order.
    let by_age = SortOperator::boxed(input(), vec![key("age", SortDirection::Asc)]);
    assert_eq!(run(&by_age, &runtime), vec![vec![4, 2, 5, 1, 3]]);
    let by_age_desc = SortOperator::boxed(input(), vec![key("age", SortDirection::Desc)]);
    assert_eq!(run(&by_age_desc, &runtime), vec![vec![1, 3, 5, 2, 4]]);
    let by_age_name = SortOperator::boxed(
        input(),
        vec![key("age", SortDirection::Desc), key("name", SortDirection::Asc)],
    );
    assert_eq!(run(&by_age_name, &runtime), vec![vec![3, 1, 5, 2, 4]]);
    // A key naming no field leaves every row equal: input order.
    let by_index = SortOperator::boxed(
        input(),
        vec![OrderKey { path: FieldPath { segments: vec![FieldSegment::Index(0)] }, direction: SortDirection::Asc }],
    );
    assert_eq!(run(&by_index, &runtime), vec![vec![1, 2, 3, 4, 5]]);
    assert_eq!(describe_keys(&[OrderKey { path: FieldPath { segments: vec![FieldSegment::Index(0)] }, direction: SortDirection::Asc }]), " asc");
}

#[test]
fn sort_declares_its_leading_key_and_a_second_sort_passes_through() {
    let runtime = TestRuntime::with_stored(
        vec![],
        vec![stored(1, "age", QueryValue::Int(3)), stored(2, "age", QueryValue::Int(1))],
    );
    let inner = SortOperator::boxed(
        Box::new(Operator::Values(VecSource::new("rows", vec![1, 2]))),
        vec![key("age", SortDirection::Asc)],
    );
    match inner.output_ordering() {
        OutputOrdering::Sorted { field, direction } => {
            assert_eq!(field, "age");
            assert_eq!(direction, SortDirection::Asc);
        }
        OutputOrdering::Unordered => panic!("sort must declare its ordering"),
    }
    assert_eq!(inner.kind(), OperatorKind::Sort);
    let outer = SortOperator::new(inner, vec![key("age", SortDirection::Asc)]);
    assert!(outer.eliminated());
    let mut ctx = ExecContext::new(&runtime, "db");
    ctx.explain = ExplainCapture::new(true);
    match outer.execute(&mut ctx) {
        FlowResult::Rows(batches) => {
            let rows: Vec<u64> = batches.into_iter().flat_map(|b| b.0.into_iter().map(|e| e.uid)).collect();
            assert_eq!(rows, vec![2, 1]);
        }
        other => panic!("expected rows, got error={}", other.is_error()),
    }
    let last = ctx.explain.stats().last().unwrap();
    assert_eq!(last.notes[0], "sort eliminated: input already ordered by age asc");
    assert_eq!(last.rows_in, 2);
}
