//! Relation traversal source: edge-derived child ids of one parent.
use vstd::prelude::*;
use crate::query_planner::ir::EntityId;
use crate::render::decimal;
use super::{
    clock_now, context_extends, flow_of, make_stat, read_result, CardinalityHint, ExecContext,
    FlowResult, Operator, OperatorKind, RowBatch,
};
use crate::query_planner::traits::PlannerRuntime;

verus! {

/// Children of a single parent through one relation field, in edge order.
pub struct RelatedIdsSource {
    pub parent: EntityId,
    pub field: String,
}

impl RelatedIdsSource {
    pub fn new(parent_uid: u64, field: &str) -> (r: Self)
        ensures
            r.parent.uid == parent_uid,
            r.parent.entity_type is None,
            r.field@ == field@,
    {
        RelatedIdsSource { parent: EntityId::new(parent_uid), field: String::from_str(field) }
    }

    pub fn kind(&self) -> (k: OperatorKind)
        ensures
            k == OperatorKind::Scan,
    {
        OperatorKind::Scan
    }

    /// The explain detail line.
    pub open spec fn describe(self) -> Seq<char> {
        "related_ids parent="@ + decimal(self.parent.uid as nat) + " field="@ + self.field@
    }

    pub fn detail(&self) -> (s: String)
        ensures
            s@ == self.describe(),
    {
        let mut s = String::from_str("related_ids parent=");
        crate::render::append_decimal(&mut s, self.parent.uid);
        s.append(" field=");
        s.append(self.field.as_str());
        s
    }

    pub fn cardinality(&self) -> (c: CardinalityHint)
        ensures
            c == CardinalityHint::Unbounded,
    {
        CardinalityHint::Unbounded
    }

    pub fn execute<R: PlannerRuntime>(&self, ctx: &mut ExecContext<R>) -> (r: FlowResult<Vec<RowBatch>>)
        ensures
            flow_of(r) == Operator::RelatedIds(*self).spec_execute(old(ctx).spec_runtime(), old(ctx).spec_depth()),
            context_extends(*old(ctx), *final(ctx)),
    {
        let start = clock_now();
        let read = ctx.runtime().related_ids(&self.parent, self.field.as_str());
        let n: usize = match &read {
            Ok(ids) => ids.len(),
            Err(_) => 0,
        };
        if read.is_ok() {
            ctx.record(make_stat("scan", self.detail(), 0, n, &start, Vec::new()));
        }
        read_result(read)
    }
}

} // verus!
