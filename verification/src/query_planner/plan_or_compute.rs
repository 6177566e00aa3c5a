//! The fallback bridge between the operator pipeline and legacy code paths.
//!
//! Whenever the pipeline cannot express a construct it reports
//! [`PlannerError::Unsupported`]; [`plan_or_compute`] routes exactly that
//! variant to a caller-provided fallback, while storage failures propagate:
//! a broken backend never silently degrades into a fallback path.
use vstd::prelude::*;
use crate::query_planner::ir::{EntityId, LogicalFilter};
use crate::query_planner::operators::builder::residual_over;
use crate::query_planner::operators::filter::{copy_filter, FilterOperator};
use crate::query_planner::operators::source::{build_source_tree, dedup_sorted, tree_of, union_ids};
use crate::query_planner::operators::{flatten_batches, batches_view, ErrorView, ExecContext, Flow, FlowResult, Operator, PlannerError};
use crate::query_planner::plan::{residual_view, source_view, CandidatePlan};
use crate::query_planner::traits::PlannerRuntime;

verus! {

/// Runs `plan`, routing only [`PlannerError::Unsupported`] to `fallback`.
pub fn plan_or_compute<T, P, F>(plan: P, fallback: F) -> (r: Result<T, PlannerError>)
    where
        P: FnOnce() -> Result<T, PlannerError>,
        F: FnOnce(PlannerError) -> Result<T, PlannerError>,
    requires
        plan.requires(()),
        forall|e: PlannerError| e is Unsupported ==> fallback.requires((e,)),
    ensures
        exists|p: Result<T, PlannerError>| #[trigger] plan.ensures((), p) && match p {
            Ok(v) => r == Ok::<T, PlannerError>(v),
            Err(e) => if e is Unsupported {
                fallback.ensures((e,), r)
            } else {
                r == Err::<T, PlannerError>(e)
            },
        },
{
    let outcome = plan();
    let ghost planned = outcome;
    match outcome {
        Ok(value) => Ok(value),
        Err(err) => match err {
            PlannerError::Unsupported(_) => {
                let r = fallback(err);
                proof {
                    assert(plan.ensures((), planned));
                }
                r
            },
            _ => Err(err),
        },
    }
}

/// What running `pipeline` from the top says of a plan's candidates: the
/// distinct-uid rows in ascending uid order (the first id of each uid);
/// none after a control-flow signal; no narrowing (`None`) when the
/// pipeline cannot express something; storage failures pass through.
pub open spec fn pipeline_candidates<R: PlannerRuntime>(rt: &R, pipeline: Operator) -> Result<Option<Seq<EntityId>>, ErrorView> {
    match pipeline.spec_execute(rt, 0) {
        Flow::Rows(b) => Ok(Some(union_ids(b.flatten()))),
        Flow::Break => Ok(Some(Seq::empty())),
        Flow::Continue => Ok(Some(Seq::empty())),
        Flow::Failed(e) => if e is Unsupported { Ok(None) } else { Err(e) },
    }
}

/// `r` is the outcome `spec` describes.
pub open spec fn candidates_match(r: Result<Option<Vec<EntityId>>, PlannerError>, spec: Result<Option<Seq<EntityId>>, ErrorView>) -> bool {
    match spec {
        Ok(Some(ids)) => r matches Ok(Some(v)) && v@ == ids,
        Ok(None) => r matches Ok(None),
        Err(e) => r matches Err(x) && x.view_error() == e,
    }
}

/// Runs a candidate plan's source tree under its residual filter (see
/// [`pipeline_candidates`]); `Ok(None)` tells the caller to fall back to
/// scanning. The execution context lives only for this call and its
/// statistics are not returned, so it runs with explain capture off
/// whatever the debug switch says: the result is the same either way.
pub fn candidates_or_legacy<R: PlannerRuntime>(plan: &CandidatePlan, runtime: &R, db: &str) -> (r: Result<Option<Vec<EntityId>>, PlannerError>)
    ensures
        exists|src: Operator, residual: Option<LogicalFilter>|
            #![trigger residual_over(src, residual)]
            tree_of(src, plan.type_label@, source_view(plan.source))
            && residual_view(residual) == plan@.residual
            && candidates_match(r, pipeline_candidates(runtime, residual_over(src, residual))),
{
    let source = match build_source_tree(plan.type_label.as_str(), &plan.source) {
        Ok(op) => op,
        Err(e) => {
            return match e {
                PlannerError::Unsupported(_) => Ok(None),
                other => Err(other),
            };
        },
    };
    let residual = match &plan.residual {
        Some(f) => Some(copy_filter(f)),
        None => None,
    };
    let ghost src_g = *source;
    let ghost res_g = residual;
    let pipeline = match residual {
        Some(f) => if !f.is_empty_conjunction() {
            FilterOperator::boxed(source, f)
        } else {
            source
        },
        None => source,
    };
    proof {
        assert(*pipeline == residual_over(src_g, res_g));
    }
    let mut ctx = ExecContext::new(runtime, db);
    match pipeline.execute(&mut ctx) {
        FlowResult::Rows(batches) => {
            let rows = flatten_batches(batches);
            Ok(Some(dedup_sorted(rows)))
        },
        FlowResult::Break => Ok(Some(Vec::new())),
        FlowResult::Continue => Ok(Some(Vec::new())),
        FlowResult::Error(e) => match e {
            PlannerError::Unsupported(_) => Ok(None),
            other => Err(other),
        },
    }
}

} // verus!
