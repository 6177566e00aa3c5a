//! Control-flow operators: sequencing and the terminal `return` marker.
use vstd::prelude::*;
use crate::query_planner::ir::{FieldPath, QueryValue};
use crate::render::decimal;
use super::{
    batches_view, clock_now, total_rows, context_extends, flow_of, make_stat, run_children, CardinalityHint,
    ExecContext, Flow, FlowResult, Operator, OperatorKind, RowBatch,
};
use crate::query_planner::traits::PlannerRuntime;

verus! {

/// Runs its steps in order, accumulating their batches. A step returning
/// `Break` or an error stops the sequence and that signal wins (rows gathered
/// so far are dropped); `Continue` advances to the next step.
pub struct SequenceOperator {
    pub steps: Vec<Box<Operator>>,
}

impl SequenceOperator {
    pub fn new(steps: Vec<Box<Operator>>) -> (r: Self)
        ensures
            r.steps == steps,
    {
        SequenceOperator { steps }
    }

    pub fn kind(&self) -> (k: OperatorKind)
        ensures
            k == OperatorKind::Control,
    {
        OperatorKind::Control
    }

    /// The explain detail line.
    pub open spec fn describe(self) -> Seq<char> {
        "sequence steps="@ + decimal(self.steps@.len())
    }

    pub fn detail(&self) -> (s: String)
        ensures
            s@ == self.describe(),
    {
        let mut s = String::from_str("sequence steps=");
        crate::render::append_decimal(&mut s, self.steps.len() as u64);
        s
    }

    /// The first step's bound, or `Unbounded` without steps.
    pub fn cardinality(&self) -> (c: CardinalityHint)
        ensures
            c == (if self.steps@.len() == 0 { CardinalityHint::Unbounded } else { self.steps@[0].spec_cardinality() }),
        decreases self,
    {
        if self.steps.len() == 0 {
            CardinalityHint::Unbounded
        } else {
            self.steps[0].cardinality()
        }
    }

    pub fn execute<R: PlannerRuntime>(&self, ctx: &mut ExecContext<R>) -> (r: FlowResult<Vec<RowBatch>>)
        ensures
            flow_of(r) == Operator::Sequence(*self).spec_execute(old(ctx).spec_runtime(), old(ctx).spec_depth()),
            context_extends(*old(ctx), *final(ctx)),
        decreases self,
    {
        let start = clock_now();
        let payloads = match run_children(&self.steps, ctx) {
            FlowResult::Rows(p) => p,
            FlowResult::Break => return FlowResult::Break,
            FlowResult::Continue => return FlowResult::Break,
            FlowResult::Error(e) => return FlowResult::Error(e),
        };
        let ghost pv = payloads@.map_values(|b: Vec<RowBatch>| batches_view(b@));
        let mut payloads = payloads;
        let mut accumulated: Vec<RowBatch> = Vec::new();
        let mut k: usize = 0;
        let total_len = payloads.len();
        let ghost total: nat = total_len as nat;
        while payloads.len() > 0
            invariant
                pv.len() == total,
                payloads@.len() + k == total,
                total <= usize::MAX,
                forall|j: int| 0 <= j < payloads@.len() ==> batches_view(payloads@[j]@) == pv[k + j],
                batches_view(accumulated@) == pv.take(k as int).flatten(),
            decreases payloads@.len(),
        {
            let ghost before = payloads@;
            let ghost acc_before = accumulated@;
            let mut b = payloads.remove(0);
            proof {
                assert forall|j: int| 0 <= j < payloads@.len() implies batches_view(payloads@[j]@) == pv[k + 1 + j] by {
                    assert(payloads@[j] == before[j + 1]);
                }
            }
            let ghost bv = b@;
            accumulated.append(&mut b);
            proof {
                let t = pv.take(k as int + 1);
                assert(t.drop_last() =~= pv.take(k as int));
                t.drop_last().lemma_flatten_push(t.last());
                assert(t.drop_last().push(t.last()) =~= t);
                assert(batches_view(accumulated@) =~= batches_view(acc_before) + batches_view(bv));
            }
            k = k + 1;
        }
        proof {
            assert(pv.take(k as int) =~= pv);
        }
        let n = accumulated.len();
        ctx.record(make_stat("control", self.detail(), 0, n, &start, Vec::new()));
        FlowResult::Rows(accumulated)
    }
}

/// Row source with no fields at all: the scalar-expression context.
pub struct EmptySource;

impl EmptySource {
    /// Every path is absent.
    pub fn resolve(&self, path: &FieldPath) -> (r: Option<QueryValue>)
        ensures
            r is None,
    {
        None
    }
}

/// Executes its inner operator once, buffers the rows, and answers the
/// terminal `Break` signal; the payload is retrieved with
/// [`ReturnOperator::take_rows`].
pub struct ReturnOperator {
    pub inner: Box<Operator>,
    pub rows: Option<Vec<RowBatch>>,
}

impl ReturnOperator {
    pub fn new(inner: Box<Operator>) -> (r: Self)
        ensures
            r.inner == inner,
            r.rows is None,
    {
        ReturnOperator { inner, rows: None }
    }

    /// Hands out the buffered rows once.
    pub fn take_rows(&mut self) -> (r: Option<Vec<RowBatch>>)
        ensures
            r == old(self).rows,
            final(self).rows is None,
            final(self).inner == old(self).inner,
    {
        let mut taken: Option<Vec<RowBatch>> = None;
        std::mem::swap(&mut taken, &mut self.rows);
        taken
    }

    pub fn kind(&self) -> (k: OperatorKind)
        ensures
            k == OperatorKind::Control,
    {
        OperatorKind::Control
    }

    pub fn detail(&self) -> (s: String)
        ensures
            s@ == "return "@ + self.inner.spec_detail(),
        decreases self,
    {
        let mut s = String::from_str("return ");
        let inner = self.inner.detail();
        s.append(inner.as_str());
        s
    }

    pub fn cardinality(&self) -> (c: CardinalityHint)
        ensures
            c == self.inner.spec_cardinality(),
        decreases self,
    {
        self.inner.cardinality()
    }

    /// Runs the inner operator and buffers its rows; answers `Break` when
    /// rows were produced, otherwise the inner signal.
    pub fn execute<R: PlannerRuntime>(&mut self, ctx: &mut ExecContext<R>) -> (r: FlowResult<Vec<RowBatch>>)
        ensures
            flow_of(r) == Operator::Return(*old(self)).spec_execute(old(ctx).spec_runtime(), old(ctx).spec_depth()),
            final(self).inner == old(self).inner,
            match old(self).inner.spec_execute(old(ctx).spec_runtime(), old(ctx).spec_depth()) {
                Flow::Rows(b) => (final(self).rows matches Some(v) && batches_view(v@) == b),
                _ => final(self).rows == old(self).rows,
            },
            context_extends(*old(ctx), *final(ctx)),
    {
        let start = clock_now();
        match self.inner.execute(ctx) {
            FlowResult::Rows(batches) => {
                let n = total_rows(&batches);
                self.rows = Some(batches);
                ctx.record(make_stat("control", self.detail(), 0, n, &start, Vec::new()));
                FlowResult::Break
            },
            other => other,
        }
    }

    /// The tree-level execution: the same signal as
    /// [`ReturnOperator::execute`], without buffering.
    pub fn execute_signal<R: PlannerRuntime>(&self, ctx: &mut ExecContext<R>) -> (r: FlowResult<Vec<RowBatch>>)
        ensures
            flow_of(r) == Operator::Return(*self).spec_execute(old(ctx).spec_runtime(), old(ctx).spec_depth()),
            context_extends(*old(ctx), *final(ctx)),
        decreases self,
    {
        let start = clock_now();
        match self.inner.execute(ctx) {
            FlowResult::Rows(batches) => {
                let n = total_rows(&batches);
                ctx.record(make_stat("control", self.detail(), 0, n, &start, Vec::new()));
                FlowResult::Break
            },
            other => other,
        }
    }
}

} // verus!
