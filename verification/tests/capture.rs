use vardadb::query_planner::adapters::runtime_for_test_stub;
use vardadb::query_planner::ir::EntityId;
use vardadb::query_planner::operators::{
    CardinalityHint, ExecContext, ExecOperator, ExplainCapture, FlowResult, Operator, OperatorKind, OperatorStat,
    OutputOrdering, RowBatch,
};
use vardadb::query_planner::traits::PlannerRuntime;

fn ids(start: u64, count: usize) -> Vec<EntityId> {
    (start..start + count as u64).map(EntityId::from).collect()
}

/// A source producing fixed batches and recording nothing.
struct MockSource {
    batches: Vec<RowBatch>,
}

impl ExecOperator for MockSource {
    fn kind(&self) -> OperatorKind {
        OperatorKind::Scan
    }
    fn detail(&self) -> String {
        "mock_source".to_string()
    }
    fn cardinality(&self) -> CardinalityHint {
        CardinalityHint::Unbounded
    }
    fn output_ordering(&self) -> OutputOrdering {
        OutputOrdering::Unordered
    }
    fn children(&self) -> Vec<&Operator> {
        vec![]
    }
    fn execute<R: PlannerRuntime>(&self, _ctx: &mut ExecContext<R>) -> FlowResult<Vec<RowBatch>> {
        FlowResult::Rows(self.batches.clone())
    }
}

/// Passes its input through and records one statistic.
struct Passthrough {
    input: MockSource,
}

impl ExecOperator for Passthrough {
    fn kind(&self) -> OperatorKind {
        OperatorKind::Filter
    }
    fn detail(&self) -> String {
        "passthrough".to_string()
    }
    fn cardinality(&self) -> CardinalityHint {
        self.input.cardinality()
    }
    fn output_ordering(&self) -> OutputOrdering {
        self.input.output_ordering()
    }
    fn children(&self) -> Vec<&Operator> {
        vec![]
    }
    fn execute<R: PlannerRuntime>(&self, ctx: &mut ExecContext<R>) -> FlowResult<Vec<RowBatch>> {
        match self.input.execute(ctx) {
            FlowResult::Rows(batches) => {
                let rows_in: usize = batches.iter().map(|b| b.len()).sum();
                ctx.record(OperatorStat {
                    kind: self.kind().as_str().to_string(),
                    detail: self.detail(),
                    rows_in,
                    rows_out: rows_in,
                    elapsed_us: 0,
                    notes: vec![],
                });
                FlowResult::Rows(batches)
            }
            other => other,
        }
    }
}

#[test]
fn batch_chain_flattens_rows() {
    let op = Passthrough { input: MockSource { batches: vec![RowBatch(ids(1, 3)), RowBatch(ids(10, 2))] } };
    let runtime = runtime_for_test_stub();
    let mut ctx = ExecContext::new(&runtime, "test_db");
    ctx.explain = ExplainCapture::new(true);
    match op.execute(&mut ctx) {
        FlowResult::Rows(batches) => {
            let all: Vec<u64> = batches.iter().flat_map(|b| b.0.iter().map(|e| e.uid)).collect();
            assert_eq!(all, vec![1, 2, 3, 10, 11]);
        }
        other => panic!("expected rows, got {:?}", other.is_error()),
    }
    assert_eq!(ctx.explain.stats().len(), 1);
    assert_eq!(ctx.explain.stats()[0].rows_in, 5);
}

#[test]
fn explain_capture_disabled_records_nothing() {
    let op = Passthrough { input: MockSource { batches: vec![RowBatch(ids(7, 1))] } };
    let runtime = runtime_for_test_stub();
    let mut ctx = ExecContext::new(&runtime, "test_db");
    ctx.explain = ExplainCapture::new(false);
    let _ = op.execute(&mut ctx).into_rows().unwrap();
    assert!(ctx.explain.stats().is_empty());
}
