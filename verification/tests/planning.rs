use vardadb::query_planner::context::PlanContext;
use vardadb::query_planner::debug_capture::{CapturedPlan, DebugCapture, CAPACITY};
use vardadb::query_planner::explain::{explain_mode_from_flag, wants_explain};
use vardadb::query_planner::index::IndexCapability;
use vardadb::query_planner::ir::{EntityId, ExplainMode, FieldPath, FieldSegment};
use vardadb::query_planner::operators::{EmptySource, PlannerError};
use vardadb::query_planner::parser::ParseError;
use vardadb::query_planner::plan::CandidateOutcome;
use vardadb::query_planner::plan_or_compute::plan_or_compute;
use vardadb::realtime::bus::{MutationSource, MutationType};

fn capture(n: u64) -> CapturedPlan {
    CapturedPlan {
        captured_at_ms: n,
        db: "db".to_string(),
        kind: "scan".to_string(),
        type_label: "User".to_string(),
        shape: "full".to_string(),
        text: String::new(),
        plan_json: None,
        operator_stats: Vec::new(),
        elapsed_us: 0,
    }
}

#[test]
fn explain_flags_map_to_modes() {
    assert_eq!(explain_mode_from_flag(true), ExplainMode::Text);
    assert_eq!(explain_mode_from_flag(false), ExplainMode::Off);
    assert!(wants_explain(ExplainMode::Text));
    assert!(wants_explain(ExplainMode::Json));
    assert!(!wants_explain(ExplainMode::Off));
}

#[test]
fn index_capabilities_have_labels() {
    assert_eq!(IndexCapability::UniqueKey.as_str(), "unique_key");
    assert_eq!(IndexCapability::VectorIndex.as_str(), "vector_index");
    assert_eq!(IndexCapability::FulltextIndex.as_str(), "fulltext_index");
}

#[test]
fn candidate_outcome_uids() {
    assert_eq!(CandidateOutcome::NoNarrowing.uids(), None);
    assert_eq!(CandidateOutcome::Narrowed(vec![EntityId::new(3), EntityId::new(1)]).uids(), Some(vec![3, 1]));
    assert_eq!(CandidateOutcome::Narrowed(vec![]).uids(), Some(vec![]));
}

#[test]
fn plan_or_compute_routes_only_unsupported_to_fallback() {
    let ok = plan_or_compute(|| Ok::<u32, PlannerError>(1), |_| Ok(2));
    assert!(matches!(ok, Ok(1)));
    let fell_back = plan_or_compute(|| Err::<u32, PlannerError>(PlannerError::Unsupported("x".to_string())), |_| Ok(2));
    assert!(matches!(fell_back, Ok(2)));
    let storage = plan_or_compute(|| Err::<u32, PlannerError>(PlannerError::Storage("disk".to_string())), |_| Ok(2));
    assert!(matches!(storage, Err(PlannerError::Storage(_))));
}

#[test]
fn debug_capture_keeps_bounded_recent_history() {
    let mut d = DebugCapture::new();
    assert!(d.enabled());
    for i in 0..(CAPACITY as u64 + 5) {
        d.record(capture(i));
    }
    assert_eq!(d.recent(0).len(), CAPACITY);
    assert_eq!(d.recent(0)[0].captured_at_ms, 5);
    let last_two: Vec<u64> = d.recent(2).iter().map(|c| c.captured_at_ms).collect();
    assert_eq!(last_two, vec![103, 104]);
    d.set_enabled(false);
    d.record(capture(999));
    assert_eq!(d.recent(1)[0].captured_at_ms, 104);
    d.clear();
    assert!(d.recent(0).is_empty());
    assert!(!d.enabled());
}

#[test]
fn parse_errors_render_position() {
    let e = ParseError { message: "unexpected token".to_string(), position: 7 };
    assert_eq!(e.to_string(), "expression parse error at 7: unexpected token");
}

#[test]
fn plan_context_child_keeps_database() {
    let uniques = vec!["email".to_string()];
    let meta = 5u8;
    let ctx = PlanContext { db_name: "db", type_label: "User", uniques: &uniques, metadata: &meta };
    let child = ctx.child("Post", &[]);
    assert_eq!(child.db_name, "db");
    assert_eq!(child.type_label, "Post");
    assert_eq!(*child.metadata, 5);
}

#[test]
fn empty_source_resolves_nothing() {
    let p = FieldPath { segments: vec![FieldSegment::Field("a".to_string())] };
    assert!(EmptySource.resolve(&p).is_none());
}

#[test]
fn mutation_tags_compare() {
    assert_eq!(MutationType::Create, MutationType::Create);
    assert_ne!(MutationSource::Local, MutationSource::Remote);
}
