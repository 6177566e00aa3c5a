use vardadb::query_planner::adapters::{runtime_for_test_stub, RelationEdge, TestRuntime};
use vardadb::query_planner::ir::{EntityId, FieldPath, FieldSegment, FilterOp, OrderKey, SortDirection};
use vardadb::query_planner::operators::{
    CardinalityHint, CursorSkipOperator, ExecContext, ExecOperator, ExplainCapture, FlowResult,
    IntersectionSources, LimitOperator, OffsetOperator, Operator, OperatorKind, OutputOrdering,
    PlannerError, RecurseGoal, RecurseOperator, RelatedIdsSource, RelationExpandSource, ReturnOperator,
    RowBatch, SequenceOperator, TextBM25Scan, UnionSources, VecSource, MAX_DEPTH, RECURSION_LIMIT,
};

fn values(ids: Vec<u64>) -> Box<Operator> {
    Box::new(Operator::Values(VecSource::new("fixed", ids)))
}

fn run_with(op: &Operator, runtime: &TestRuntime) -> Vec<u64> {
    let mut ctx = ExecContext::new(runtime, "db");
    match op.execute(&mut ctx) {
        FlowResult::Rows(batches) => batches.into_iter().flat_map(|b| b.0.into_iter().map(|e| e.uid)).collect(),
        other => panic!("expected rows, got error={}", other.is_error()),
    }
}

fn run(op: &Operator) -> Vec<u64> {
    run_with(op, &runtime_for_test_stub())
}

fn batches_of(op: &Operator, runtime: &TestRuntime) -> Vec<Vec<u64>> {
    let mut ctx = ExecContext::new(runtime, "db");
    match op.execute(&mut ctx) {
        FlowResult::Rows(batches) => batches.into_iter().map(|b| b.0.into_iter().map(|e| e.uid).collect()).collect(),
        other => panic!("expected rows, got error={}", other.is_error()),
    }
}

fn edge(from: u64, field: &str, to: u64) -> RelationEdge {
    RelationEdge { from, field: field.to_string(), to }
}

fn path(name: &str) -> FieldPath {
    FieldPath { segments: vec![FieldSegment::Field(name.to_string())] }
}

#[test]
fn cardinality_hints_combine_to_loosest_bound() {
    assert_eq!(
        CardinalityHint::combine(&[CardinalityHint::Bounded(2), CardinalityHint::Bounded(3)]),
        CardinalityHint::Bounded(5)
    );
    assert_eq!(
        CardinalityHint::combine(&[CardinalityHint::AtMostOne, CardinalityHint::Bounded(4)]),
        CardinalityHint::Bounded(4)
    );
    assert_eq!(
        CardinalityHint::combine(&[CardinalityHint::Unbounded, CardinalityHint::AtMostOne]),
        CardinalityHint::Unbounded
    );
    assert_eq!(CardinalityHint::AtMostOne.suggested_capacity(), Some(1));
    assert_eq!(CardinalityHint::Bounded(9).suggested_capacity(), Some(9));
    assert_eq!(CardinalityHint::Unbounded.suggested_capacity(), None);
}

#[test]
fn output_ordering_satisfies_requested_keys() {
    let sorted_asc = OutputOrdering::Sorted { field: "age".to_string(), direction: SortDirection::Asc };

    // Exact match eliminates a downstream sort.
    assert!(sorted_asc.satisfies(&OrderKey { path: path("age"), direction: SortDirection::Asc }));
    // Direction mismatch does not.
    assert!(!sorted_asc.satisfies(&OrderKey { path: path("age"), direction: SortDirection::Desc }));
    // Different field does not.
    assert!(!sorted_asc.satisfies(&OrderKey { path: path("name"), direction: SortDirection::Asc }));
    // Unordered never satisfies.
    assert!(!OutputOrdering::Unordered.satisfies(&OrderKey { path: path("age"), direction: SortDirection::Asc }));
    // Empty key list is trivially satisfied.
    assert!(sorted_asc.satisfies_all(&[]));
}

#[test]
fn flow_result_control_flow_semantics() {
    let ok: FlowResult<Vec<RowBatch>> = FlowResult::Rows(vec![]);
    assert!(!ok.is_error());
    assert!(ok.into_rows().is_some());

    let brk: FlowResult<Vec<RowBatch>> = FlowResult::Break;
    assert!(brk.into_rows().is_none());

    let err: FlowResult<Vec<RowBatch>> = FlowResult::Error(PlannerError::Unsupported("geo".into()));
    assert!(err.is_error());
    assert!(matches!(Err::<(), _>(PlannerError::Storage("x".into())).into(), FlowResult::Error(_)));
}

#[test]
fn exec_context_depth_guard_blocks_runaway_recursion() {
    let runtime = runtime_for_test_stub();
    let mut ctx = ExecContext::new(&runtime, "test_db");
    for _ in 0..ExecContext::<TestRuntime>::MAX_DEPTH {
        assert!(ctx.enter_nested());
    }
    assert!(!ctx.enter_nested());
    ctx.exit_nested();
    assert!(ctx.enter_nested());
}

#[test]
fn cursor_skip_is_positional_and_tolerates_absent_cursor() {
    let src = || values(vec![3, 1, 4, 1, 5]);
    assert_eq!(
        run(&Operator::CursorSkip(CursorSkipOperator::new(src(), Some(4)))),
        vec![1, 5],
        "keeps rows strictly after the matched position"
    );
    assert_eq!(
        run(&Operator::CursorSkip(CursorSkipOperator::new(src(), Some(99)))),
        vec![3, 1, 4, 1, 5],
        "absent cursor keeps everything (legacy parity)"
    );
    assert_eq!(run(&Operator::CursorSkip(CursorSkipOperator::new(src(), None))), vec![3, 1, 4, 1, 5]);
}

#[test]
fn offset_skips_then_limit_truncates() {
    let src = || values(vec![1, 2, 3, 4, 5]);
    assert_eq!(run(&Operator::Offset(OffsetOperator::new(src(), 2))), vec![3, 4, 5]);
    assert_eq!(run(&Operator::Limit(LimitOperator::new(src(), 2))), vec![1, 2]);
    assert_eq!(run(&Operator::Limit(LimitOperator::new(src(), 0))), Vec::<u64>::new());
    assert_eq!(run(&Operator::Offset(OffsetOperator::new(src(), 9))), Vec::<u64>::new());

    let combined = LimitOperator::boxed(OffsetOperator::boxed(values(vec![1, 2, 3, 4, 5]), 1), 2);
    assert_eq!(run(&*combined), vec![2, 3]);
}

#[test]
fn limit_narrows_declared_cardinality() {
    // Unbounded input becomes Bounded(limit).
    let unbounded = LimitOperator::new(Box::new(Operator::RelatedIds(RelatedIdsSource::new(1, "children"))), 3);
    assert_eq!(unbounded.cardinality(), CardinalityHint::Bounded(3));

    // A tighter declared bound shrinks to min(input, limit).
    let bounded = || values(vec![1, 2, 3, 4, 5]);
    assert_eq!(LimitOperator::new(bounded(), 2).cardinality(), CardinalityHint::Bounded(2));
    assert_eq!(LimitOperator::new(bounded(), 9).cardinality(), CardinalityHint::Bounded(5));
}

#[test]
fn cursor_seek_drops_everything_when_cursor_absent() {
    assert_eq!(run(&Operator::CursorSkip(CursorSkipOperator::seek(values(vec![1, 2, 3]), Some(7)))), Vec::<u64>::new());
    assert_eq!(run(&Operator::CursorSkip(CursorSkipOperator::seek(values(vec![1, 2, 3]), Some(1)))), vec![2, 3]);
}

#[test]
fn offset_then_limit_is_a_window_on_concrete_rows() {
    let src = values(vec![10, 20, 30, 40, 50, 60]);
    let window = Operator::Limit(LimitOperator::new(OffsetOperator::boxed(src, 2), 3));
    assert_eq!(run(&window), vec![30, 40, 50]);
    let tail = Operator::Limit(LimitOperator::new(OffsetOperator::boxed(values(vec![10, 20, 30]), 2), 5));
    assert_eq!(run(&tail), vec![30]);
}

#[test]
fn union_deduplicates_and_orders_by_uid() {
    let op = Operator::Union(UnionSources { sources: vec![values(vec![5, 3, 9]), values(vec![3, 1]), values(vec![])] });
    assert_eq!(run(&op), vec![1, 3, 5, 9]);
    assert_eq!(op.kind(), OperatorKind::Union);
    assert_eq!(op.cardinality(), CardinalityHint::Bounded(5));
}

#[test]
fn intersection_keeps_uids_present_everywhere() {
    let op = Operator::Intersection(IntersectionSources {
        sources: vec![values(vec![4, 2, 9, 2]), values(vec![9, 4, 7]), values(vec![1, 9, 4])],
    });
    assert_eq!(run(&op), vec![4, 9]);
    assert_eq!(op.cardinality(), CardinalityHint::Bounded(3));
    let none = Operator::Intersection(IntersectionSources { sources: vec![] });
    assert_eq!(run(&none), Vec::<u64>::new());
    assert_eq!(none.cardinality(), CardinalityHint::Unbounded);
}

#[test]
fn intersection_takes_the_tightest_child_bound() {
    let op = Operator::Intersection(IntersectionSources {
        sources: vec![values(vec![1, 2, 3, 4, 5]), values(vec![2, 4])],
    });
    assert_eq!(op.cardinality(), CardinalityHint::Bounded(2));
    let one = Operator::Intersection(IntersectionSources {
        sources: vec![values(vec![1, 2, 3]), Box::new(Operator::Limit(LimitOperator::new(values(vec![7]), 1)))],
    });
    assert_eq!(one.cardinality(), CardinalityHint::Bounded(1));
}

#[test]
fn sequence_collects_batches_and_return_breaks() {
    let seq = Operator::Sequence(SequenceOperator::new(vec![values(vec![1, 2]), values(vec![3])]));
    let runtime = runtime_for_test_stub();
    assert_eq!(batches_of(&seq, &runtime), vec![vec![1, 2], vec![3]]);

    let with_return = Operator::Sequence(SequenceOperator::new(vec![
        values(vec![1]),
        Box::new(Operator::Return(ReturnOperator::new(values(vec![7, 8])))),
        values(vec![2]),
    ]));
    let mut ctx = ExecContext::new(&runtime, "db");
    assert!(matches!(with_return.execute(&mut ctx), FlowResult::Break));

    let mut ret = ReturnOperator::new(values(vec![7, 8]));
    let mut ctx = ExecContext::new(&runtime, "db");
    assert!(matches!(ret.execute(&mut ctx), FlowResult::Break));
    let rows = ret.take_rows().expect("rows buffered");
    assert_eq!(rows[0].0.iter().map(|e| e.uid).collect::<Vec<_>>(), vec![7, 8]);
    assert!(ret.take_rows().is_none());
}

#[test]
fn related_ids_follow_stored_edges() {
    let runtime = TestRuntime::with_edges(vec![edge(1, "children", 2), edge(1, "children", 3), edge(1, "friends", 4), edge(2, "children", 5)]);
    let op = Operator::RelatedIds(RelatedIdsSource::new(1, "children"));
    assert_eq!(run_with(&op, &runtime), vec![2, 3]);
    assert_eq!(op.detail(), "related_ids parent=1 field=children");
}

#[test]
fn relation_expansion_reaches_parents_through_inverse_field() {
    let runtime = TestRuntime::with_edges(vec![edge(7, "owner", 30), edge(5, "owner", 10), edge(6, "owner", 10)]);
    let op = Operator::RelationExpand(RelationExpandSource {
        input: values(vec![6, 5, 7]),
        target_type: "User".to_string(),
        inverse_field: "owner".to_string(),
    });
    assert_eq!(run_with(&op, &runtime), vec![10, 30]);
}

#[test]
fn text_search_on_stub_runtime_is_empty_and_bounded_by_limit() {
    let mut scan = TextBM25Scan::new("Post", "title", FilterOp::AllOfTerms, "rust");
    assert_eq!(run(&Operator::TextSearch(TextBM25Scan::new("Post", "title", FilterOp::AllOfTerms, "rust"))), Vec::<u64>::new());
    scan.limit = Some(3);
    assert_eq!(scan.cardinality(), CardinalityHint::Bounded(3));
}

fn tree() -> TestRuntime {
    // 1 -> 2, 1 -> 3, 2 -> 4, 3 -> 4, 4 -> 1 (cycle), 4 -> 5
    TestRuntime::with_edges(vec![
        edge(1, "next", 2),
        edge(1, "next", 3),
        edge(2, "next", 4),
        edge(3, "next", 4),
        edge(4, "next", 1),
        edge(4, "next", 5),
    ])
}

#[test]
fn recursion_levels_terminate_on_cycles() {
    let runtime = tree();
    let op = RecurseOperator::boxed(values(vec![1]), "next", 0, 10, RecurseGoal::Levels);
    assert_eq!(batches_of(&op, &runtime), vec![vec![1], vec![2, 3], vec![4], vec![5]]);
    let deeper = RecurseOperator::boxed(values(vec![1]), "next", 2, 10, RecurseGoal::Levels);
    assert_eq!(batches_of(&deeper, &runtime), vec![vec![4], vec![5]]);
}

#[test]
fn recursion_goals_materialize_terminal_collect_and_shortest() {
    let runtime = tree();
    let terminal = RecurseOperator::boxed(values(vec![1]), "next", 0, 10, RecurseGoal::Terminal);
    assert_eq!(run_with(&terminal, &runtime), vec![5]);
    let too_shallow = RecurseOperator::boxed(values(vec![1]), "next", 9, 10, RecurseGoal::Terminal);
    assert_eq!(run_with(&too_shallow, &runtime), Vec::<u64>::new());
    let limited = RecurseOperator::boxed(values(vec![1]), "next", 0, 1, RecurseGoal::Terminal);
    assert_eq!(run_with(&limited, &runtime), vec![2, 3]);

    let collect = RecurseOperator::boxed(values(vec![3, 1, 1]), "next", 1, 10, RecurseGoal::CollectAll);
    assert_eq!(run_with(&collect, &runtime), vec![2, 4, 5]);

    let shortest = RecurseOperator::boxed(values(vec![1]), "next", 0, 10, RecurseGoal::ShortestPath { target: 5 });
    assert_eq!(run_with(&shortest, &runtime), vec![1, 2, 4, 5]);
    let unreachable = RecurseOperator::boxed(values(vec![1]), "next", 0, 10, RecurseGoal::ShortestPath { target: 42 });
    assert_eq!(run_with(&unreachable, &runtime), Vec::<u64>::new());
}

#[test]
fn recursion_depth_is_clamped_and_described() {
    let op = RecurseOperator::new(values(vec![1]), "next", 1, 1000, RecurseGoal::CollectAll);
    assert_eq!(op.max_depth, RECURSION_LIMIT);
    assert_eq!(op.detail(), "recurse next depth 1..128 goal=collect");
    assert_eq!(op.kind(), OperatorKind::Traverse);
    assert_eq!(op.cardinality(), CardinalityHint::Unbounded);
}

#[test]
fn explain_capture_records_operator_stats_only_when_enabled() {
    let runtime = runtime_for_test_stub();
    let op = Operator::Limit(LimitOperator::new(values(vec![1, 2, 3]), 2));
    let mut ctx = ExecContext::with_explain(&runtime, "db", true);
    let _ = op.execute(&mut ctx);
    let stats = ctx.explain.stats();
    assert_eq!(stats.len(), 2);
    assert_eq!(stats[0].kind, "scan");
    assert_eq!(stats[0].rows_out, 3);
    assert_eq!(stats[1].kind, "limit");
    assert_eq!(stats[1].rows_out, 2);

    let mut quiet = ExecContext::new(&runtime, "db");
    let _ = op.execute(&mut quiet);
    assert!(quiet.explain.stats().is_empty());
    let mut capture = ExplainCapture::new(true);
    assert!(capture.take_stats().is_empty());
}

#[test]
fn nesting_guard_reports_unsupported_beyond_max_depth() {
    let runtime = runtime_for_test_stub();
    let op = Operator::RelationExpand(RelationExpandSource {
        input: values(vec![1]),
        target_type: "T".to_string(),
        inverse_field: "f".to_string(),
    });
    let mut ctx = ExecContext::new(&runtime, "db");
    for _ in 0..MAX_DEPTH {
        assert!(ctx.enter_nested());
    }
    match op.execute(&mut ctx) {
        FlowResult::Error(PlannerError::Unsupported(msg)) => assert_eq!(msg, "relation expansion nesting exceeds depth 64"),
        _ => panic!("expected the nesting guard to refuse"),
    }
}

#[test]
fn exec_operator_trait_dispatches_to_the_tree() {
    let op = Operator::Limit(LimitOperator::new(values(vec![1, 2, 3]), 2));
    assert_eq!(ExecOperator::kind(&op), OperatorKind::Limit);
    assert_eq!(ExecOperator::children(&op).len(), 1);
    assert_eq!(ExecOperator::detail(&op), "limit(2)");
    let ret = Operator::Return(ReturnOperator::new(values(vec![1])));
    assert_eq!(ret.detail(), "return vec_source fixed n=1");
    let runtime = runtime_for_test_stub();
    let mut ctx = ExecContext::new(&runtime, "db");
    assert!(ExecOperator::execute(&op, &mut ctx).into_rows().is_some());
}

#[test]
fn planner_error_and_entity_rendering() {
    assert_eq!(PlannerError::Unsupported("geo".to_string()).to_string(), "planner unsupported: geo");
    assert_eq!(PlannerError::Storage("disk".to_string()).to_string(), "storage error: disk");
    assert_eq!(EntityId::new(42).raw(), "42");
    assert_eq!(EntityId::from(7u64).uid, 7);
    assert_eq!(EntityId::typed("User", 3).entity_type.as_deref(), Some("User"));
}
