use vardadb::query_planner::plan_json::candidate_plan_json;
use vardadb::query_planner::ir::{FieldPath, FilterOp, FilterPredicate, LogicalFilter, QueryValue, SortDirection};
use vardadb::query_planner::plan::{AccessPathNote, CandidatePlan, CandidateSource};

fn bare(type_label: &str, source: CandidateSource) -> CandidatePlan {
    CandidatePlan { type_label: type_label.to_string(), source, residual: None, notes: vec![] }
}

/// The text serde_json writes for the same value: parse and print again.
fn reserialized(text: &str) -> String {
    let value: serde_json::Value = serde_json::from_str(text).expect("valid JSON");
    serde_json::to_string(&value).unwrap()
}

#[test]
fn bare_plan_json() {
    let text = candidate_plan_json(&bare("User", CandidateSource::FullTypeScan));
    assert_eq!(
        text,
        "{\"notes\":[],\"residual\":null,\"source\":{\"detail\":\"full type scan\",\"kind\":\"full_type_scan\"},\"type\":\"User\"}"
    );
    assert_eq!(reserialized(&text), text);
}

#[test]
fn plan_json_nests_children_notes_and_residual() {
    let ordered = CandidateSource::OrderedIndexScan { field: "age".into(), direction: SortDirection::Desc };
    let mut plan = bare(
        "User",
        CandidateSource::Intersection(vec![bare("User", CandidateSource::FullTypeScan), bare("User", ordered)]),
    );
    plan.notes = vec![
        AccessPathNote { kind: "index", detail: "picked \"age\"\n".to_string() },
        AccessPathNote { kind: "cost", detail: "tab\there \u{1}".to_string() },
    ];
    plan.residual = Some(LogicalFilter::Predicate(FilterPredicate {
        path: FieldPath::field("name"),
        op: FilterOp::Eq,
        value: QueryValue::String("x".into()),
    }));
    let text = candidate_plan_json(&plan);
    assert_eq!(reserialized(&text), text);
    let value: serde_json::Value = serde_json::from_str(&text).unwrap();
    assert_eq!(value["type"], "User");
    assert_eq!(value["notes"][0]["detail"], "picked \"age\"\n");
    assert_eq!(value["notes"][1]["detail"], "tab\there \u{1}");
    assert_eq!(value["notes"][1]["kind"], "cost");
    assert_eq!(value["residual"], "name eq String(\"x\")");
    assert_eq!(value["source"]["kind"], "intersection");
    assert_eq!(value["source"]["children"].as_array().unwrap().len(), 2);
    assert_eq!(value["source"]["children"][1]["source"]["detail"], "ordered index scan on `age` (desc)");
    assert!(text.contains("\\u0001"));
}

#[test]
fn empty_unions_have_no_children_key() {
    let text = candidate_plan_json(&bare("T", CandidateSource::Union(vec![])));
    let value: serde_json::Value = serde_json::from_str(&text).unwrap();
    assert!(value["source"].get("children").is_none());
    assert_eq!(reserialized(&text), text);
}

#[test]
fn relation_expansion_lists_its_child_plan() {
    let child = bare("Post", CandidateSource::FullTypeScan);
    let plan = bare(
        "User",
        CandidateSource::RelationExpansion {
            field: "posts".into(),
            target_type: "Post".into(),
            child_plan: Box::new(child),
            inverse_field: "author".into(),
            child_raw_filter: None,
            child_uniques: vec![],
        },
    );
    let text = candidate_plan_json(&plan);
    assert_eq!(reserialized(&text), text);
    let value: serde_json::Value = serde_json::from_str(&text).unwrap();
    let children = value["source"]["children"].as_array().unwrap();
    assert_eq!(children.len(), 1);
    assert_eq!(children[0]["type"], "Post");
    assert_eq!(children[0]["source"]["kind"], "full_type_scan");
    assert_eq!(value["source"]["kind"], "relation_expansion");
}
