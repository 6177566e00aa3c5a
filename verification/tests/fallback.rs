use vardadb::query_planner::adapters::TestRuntime;
use vardadb::query_planner::context::QueryTypeMetadata;
use vardadb::query_planner::ir::{EntityId, QueryValue};
use vardadb::query_planner::plan::{CandidatePlan, CandidateSource};
use vardadb::query_planner::plan_or_compute::candidates_or_legacy;
use vardadb::query_planner::planner::plan_candidates;

fn users() -> Vec<(String, QueryTypeMetadata)> {
    vec![(
        "User".to_string(),
        QueryTypeMetadata { uniques: vec!["email".to_string()], relations: vec![], inverses: vec![] },
    )]
}

#[test]
fn full_scan_plans_run_to_an_authoritative_set() {
    let runtime = TestRuntime::with_edges(vec![]);
    let plan = plan_candidates("db", "User", &vec![], &[], &users());
    assert!(matches!(plan.source, CandidateSource::FullTypeScan));
    let out = candidates_or_legacy(&plan, &runtime, "db").unwrap();
    assert_eq!(out, Some(vec![]));
}

#[test]
fn unpushable_predicates_fall_back() {
    let runtime = TestRuntime::with_edges(vec![]);
    let filter = vec![("age".to_string(), QueryValue::Object(vec![("gt".to_string(), QueryValue::Int(3))]))];
    let plan = plan_candidates("db", "User", &filter, &[], &users());
    assert!(matches!(plan.source, CandidateSource::PredicatePushdown(_)));
    assert_eq!(candidates_or_legacy(&plan, &runtime, "db").unwrap(), None);
}

#[test]
fn empty_unions_yield_nothing() {
    let runtime = TestRuntime::with_edges(vec![]);
    let plan = CandidatePlan { type_label: "User".into(), source: CandidateSource::Union(vec![]), residual: None, notes: vec![] };
    let out: Option<Vec<EntityId>> = candidates_or_legacy(&plan, &runtime, "db").unwrap();
    assert_eq!(out, Some(vec![]));
}
