use vardadb::query_planner::adapters::{runtime_for_test_stub, RelationEdge, StoredValue, TestRuntime};
use vardadb::query_planner::ir::{FieldPath, FieldSegment, FilterOp, FilterPredicate, LogicalFilter, QueryValue};
use vardadb::query_planner::operators::filter::{
    compile_filter, count_conditions, eval_compiled, parse_u64, stored_uids, value_to_uid,
};
use vardadb::query_planner::operators::{
    ExecContext, ExplainCapture, FilterOperator, FlowResult, Operator, OperatorKind, RowBatch, VecSource,
};

fn eq_pred(field: &str, v: i64) -> LogicalFilter {
    LogicalFilter::Predicate(FilterPredicate {
        path: FieldPath::field(field),
        op: FilterOp::Eq,
        value: QueryValue::Int(v),
    })
}

fn stored(uid: u64, field: &str, value: QueryValue) -> StoredValue {
    StoredValue { uid, field: field.to_string(), value }
}

fn relation(field: &str, filter: LogicalFilter) -> LogicalFilter {
    LogicalFilter::Relation { field: field.to_string(), target_type: String::new(), filter: Box::new(filter) }
}

fn not_true() -> LogicalFilter {
    LogicalFilter::Not(Box::new(LogicalFilter::And(vec![])))
}

fn obj(fields: Vec<(&str, QueryValue)>) -> QueryValue {
    QueryValue::Object(fields.into_iter().map(|(k, v)| (k.to_string(), v)).collect())
}

#[test]
fn structural_and_or_not_evaluation() {
    let runtime = runtime_for_test_stub();
    let ctx = ExecContext::new(&runtime, "db");

    // Stub runtime passes every leaf condition, so And/Or/Not structure
    // drives outcomes.
    let f_and = LogicalFilter::And(vec![eq_pred("a", 1)]);
    assert!(eval_compiled(&ctx, 1, &compile_filter(&f_and).unwrap()));

    let f_or_empty = LogicalFilter::Or(vec![]);
    assert!(!eval_compiled(&ctx, 1, &compile_filter(&f_or_empty).unwrap()));

    let f_not = LogicalFilter::Not(Box::new(eq_pred("a", 1)));
    assert!(!eval_compiled(&ctx, 1, &compile_filter(&f_not).unwrap()));
}

#[test]
fn text_predicates_pass_residual() {
    let runtime = runtime_for_test_stub();
    let ctx = ExecContext::new(&runtime, "db");
    let f = LogicalFilter::Predicate(FilterPredicate {
        path: FieldPath::field("title"),
        op: FilterOp::AllOfTerms,
        value: QueryValue::String("ignored here".into()),
    });
    assert!(eval_compiled(&ctx, 5, &compile_filter(&f).unwrap()));
}

#[test]
fn single_segment_paths_evaluate_multi_segment_paths_reject() {
    // Lowering always produces single-segment paths (one field).
    let f = LogicalFilter::Predicate(FilterPredicate {
        path: FieldPath::field("age"),
        op: FilterOp::Eq,
        value: QueryValue::Int(1),
    });
    let runtime = runtime_for_test_stub();
    let ctx = ExecContext::new(&runtime, "db");
    // Stub returns None stored + true eval_condition: still passes.
    assert!(eval_compiled(&ctx, 9, &compile_filter(&f).unwrap()));

    // Multi-segment paths fail closed.
    let nested = LogicalFilter::Predicate(FilterPredicate {
        path: FieldPath {
            segments: vec![FieldSegment::Field("age".to_string()), FieldSegment::Index(0)],
        },
        op: FilterOp::Eq,
        value: QueryValue::Int(1),
    });
    assert!(!eval_compiled(&ctx, 9, &compile_filter(&nested).unwrap()));
}

#[test]
fn parse_u64_reads_plain_decimal_only() {
    assert_eq!(parse_u64("42"), Some(42));
    assert_eq!(parse_u64("+7"), Some(7));
    assert_eq!(parse_u64("0"), Some(0));
    assert_eq!(parse_u64("18446744073709551615"), Some(u64::MAX));
    assert_eq!(parse_u64("18446744073709551616"), None);
    assert_eq!(parse_u64(""), None);
    assert_eq!(parse_u64("+"), None);
    assert_eq!(parse_u64("-1"), None);
    assert_eq!(parse_u64(" 1"), None);
    assert_eq!(parse_u64("12a"), None);
    assert_eq!(parse_u64("99999999999999999999x"), None);
    for s in ["1", "+00012", "123456789", "abc", "1.5", "++1"] {
        assert_eq!(parse_u64(s), s.parse::<u64>().ok(), "{s}");
    }
}

#[test]
fn stored_values_coerce_to_related_uids() {
    assert_eq!(value_to_uid(&QueryValue::String("12".into())), Some(12));
    assert_eq!(value_to_uid(&QueryValue::Int(5)), Some(5));
    assert_eq!(value_to_uid(&QueryValue::Int(-5)), None);
    assert_eq!(value_to_uid(&QueryValue::Bool(true)), None);
    assert_eq!(value_to_uid(&obj(vec![("uid", QueryValue::Int(3)), ("id", QueryValue::Int(4))])), Some(3));
    assert_eq!(value_to_uid(&obj(vec![("id", QueryValue::String("8".into()))])), Some(8));
    // A `uid` field that does not convert does not fall back to `id`.
    assert_eq!(value_to_uid(&obj(vec![("uid", QueryValue::Null), ("id", QueryValue::Int(4))])), None);
    assert_eq!(value_to_uid(&obj(vec![("name", QueryValue::Int(4))])), None);

    assert_eq!(stored_uids(&None), Vec::<u64>::new());
    assert_eq!(stored_uids(&Some(QueryValue::String("77".into()))), vec![77]);
    assert_eq!(stored_uids(&Some(QueryValue::String("x".into()))), Vec::<u64>::new());
    assert_eq!(stored_uids(&Some(QueryValue::Int(9))), vec![9]);
    // A bare object is no reference; only list items may be objects.
    assert_eq!(stored_uids(&Some(obj(vec![("uid", QueryValue::Int(3))]))), Vec::<u64>::new());
    let list = QueryValue::List(vec![
        QueryValue::Int(1),
        QueryValue::String("bad".into()),
        obj(vec![("uid", QueryValue::String("2".into()))]),
        QueryValue::Int(-1),
        QueryValue::String("3".into()),
    ]);
    assert_eq!(stored_uids(&Some(list)), vec![1, 2, 3]);
}

#[test]
fn relation_filters_follow_stored_references() {
    let runtime = TestRuntime::with_stored(
        vec![],
        vec![
            stored(1, "owner", QueryValue::String("10".into())),
            stored(2, "owner", QueryValue::Int(11)),
            stored(3, "members", QueryValue::List(vec![QueryValue::Int(12), obj(vec![("id", QueryValue::Int(13))])])),
            stored(4, "owner", QueryValue::String("not a uid".into())),
            stored(10, "tag", QueryValue::Int(1)),
            stored(13, "tag", QueryValue::Int(1)),
        ],
    );
    let ctx = ExecContext::new(&runtime, "db");
    let pass = LogicalFilter::And(vec![]);
    // A reference that resolves reaches the sub-filter.
    assert!(eval_compiled(&ctx, 1, &relation("owner", LogicalFilter::And(vec![]))));
    assert!(eval_compiled(&ctx, 2, &relation("owner", LogicalFilter::And(vec![]))));
    assert!(eval_compiled(&ctx, 3, &relation("members", LogicalFilter::And(vec![]))));
    // No stored reference, or one that does not parse: no related entity.
    assert!(!eval_compiled(&ctx, 4, &relation("owner", pass)));
    assert!(!eval_compiled(&ctx, 5, &relation("owner", LogicalFilter::And(vec![]))));
    // The sub-filter decides for each related entity.
    assert!(!eval_compiled(&ctx, 1, &relation("owner", not_true())));
    // Nested relations: 1 -owner-> 10 -tag-> 1, while 11 has no `tag`.
    assert!(eval_compiled(&ctx, 1, &relation("owner", relation("tag", LogicalFilter::And(vec![])))));
    assert!(!eval_compiled(&ctx, 2, &relation("owner", relation("tag", LogicalFilter::And(vec![])))));
    // A list reference passes when one item's entity passes.
    let via_tag = relation("members", relation("tag", LogicalFilter::And(vec![])));
    assert!(eval_compiled(&ctx, 3, &via_tag));
}

#[test]
fn condition_counts_include_relations() {
    assert_eq!(count_conditions(&eq_pred("a", 1)), 1);
    assert_eq!(count_conditions(&LogicalFilter::And(vec![])), 0);
    let f = LogicalFilter::Or(vec![
        eq_pred("a", 1),
        LogicalFilter::Not(Box::new(eq_pred("b", 2))),
        relation("owner", LogicalFilter::And(vec![eq_pred("c", 3), eq_pred("d", 4)])),
    ]);
    assert_eq!(count_conditions(&f), 5);
}

#[test]
fn filter_operator_drops_rows_and_empty_batches() {
    let runtime = TestRuntime::with_stored(
        vec![],
        vec![stored(2, "owner", QueryValue::Int(9)), stored(5, "owner", QueryValue::Int(9))],
    );
    let input = Box::new(Operator::Values(VecSource::new("fixed", vec![1, 2, 3, 5])));
    let op = FilterOperator::boxed(input, relation("owner", LogicalFilter::And(vec![])));
    assert_eq!(op.kind(), OperatorKind::Filter);
    assert_eq!(op.detail(), "residual(1 conditions)");
    let mut ctx = ExecContext::new(&runtime, "db");
    ctx.explain = ExplainCapture::new(true);
    match op.execute(&mut ctx) {
        FlowResult::Rows(batches) => {
            let rows: Vec<Vec<u64>> = batches.into_iter().map(|b: RowBatch| b.0.into_iter().map(|e| e.uid).collect()).collect();
            assert_eq!(rows, vec![vec![2, 5]]);
        }
        other => panic!("expected rows, got error={}", other.is_error()),
    }
    // The source records its statistic first, the filter after it.
    let stats = ctx.explain.stats();
    assert_eq!(stats.len(), 2);
    assert_eq!(stats[1].kind, "filter");
    assert_eq!(stats[1].detail, "residual(1 conditions)");
    assert_eq!(stats[1].rows_in, 4);
    assert_eq!(stats[1].rows_out, 2);
    assert_eq!(stats[1].notes, vec!["residual conditions: 1".to_string()]);

    // Nothing passes: the only batch is dropped.
    let none = FilterOperator::boxed(
        Box::new(Operator::Values(VecSource::new("fixed", vec![1, 3]))),
        relation("owner", LogicalFilter::And(vec![])),
    );
    let mut ctx = ExecContext::new(&runtime, "db");
    match none.execute(&mut ctx) {
        FlowResult::Rows(batches) => assert!(batches.is_empty()),
        other => panic!("expected rows, got error={}", other.is_error()),
    }
}
