use vardadb::query_planner::context::{InverseInfo, PlanContext, QueryTypeMetadata};
use vardadb::query_planner::ir::{FilterOp, LogicalFilter, QueryValue};
use vardadb::query_planner::plan::{CandidatePlan, CandidateSource};
use vardadb::query_planner::planner::{build_candidate_plan, plan_candidates};

fn obj(fields: Vec<(&str, QueryValue)>) -> QueryValue {
    QueryValue::Object(fields.into_iter().map(|(k, v)| (k.to_string(), v)).collect())
}

fn entries(fields: Vec<(&str, QueryValue)>) -> Vec<(String, QueryValue)> {
    fields.into_iter().map(|(k, v)| (k.to_string(), v)).collect()
}

fn catalog() -> Vec<(String, QueryTypeMetadata)> {
    vec![
        (
            "User".to_string(),
            QueryTypeMetadata {
                uniques: vec!["email".to_string()],
                relations: vec![("posts".to_string(), "Post".to_string()), ("friends".to_string(), "User".to_string())],
                inverses: vec![InverseInfo { field: "posts".to_string(), inverse_field: "author".to_string() }],
            },
        ),
        (
            "Post".to_string(),
            QueryTypeMetadata { uniques: vec!["slug".to_string()], relations: vec![], inverses: vec![] },
        ),
    ]
}

fn plan(filter: Vec<(&str, QueryValue)>) -> CandidatePlan {
    let meta = catalog();
    let uniques = vec!["email".to_string()];
    plan_candidates("db", "User", &entries(filter), &uniques, &meta)
}

fn note_kinds(p: &CandidatePlan) -> Vec<&'static str> {
    p.notes.iter().map(|n| n.kind).collect()
}

#[test]
fn empty_filter_scans_the_whole_type() {
    let p = plan(vec![]);
    assert_eq!(p.type_label, "User");
    assert!(matches!(p.source, CandidateSource::FullTypeScan));
    assert!(p.residual.is_none());
    assert_eq!(note_kinds(&p), vec!["full_type_scan"]);
    assert_eq!(p.notes[0].detail, "no candidate-producing conjuncts; residual filtering handles all predicates");
    assert_eq!(p.source.kind(), "full_type_scan");
}

#[test]
fn unique_equalities_use_the_unique_index() {
    let p = plan(vec![("email", QueryValue::String("a@b".into()))]);
    match &p.source {
        CandidateSource::UniqueLookup { field, value } => {
            assert_eq!(field, "email");
            assert_eq!(*value, QueryValue::String("a@b".into()));
        }
        _ => panic!("expected a unique lookup"),
    }
    assert_eq!(p.notes[0].detail, "unique scalar equality `email` -> unique index");
    assert!(p.residual.is_some());

    let q = plan(vec![("email", obj(vec![("eq", QueryValue::String("a@b".into()))]))]);
    assert_eq!(q.source.kind(), "unique_lookup");
    assert_eq!(q.notes[0].detail, "unique equality `email` -> unique index lookup (miss yields empty result)");
}

#[test]
fn comparisons_push_down_to_storage() {
    let p = plan(vec![("age", obj(vec![("lt", QueryValue::Int(9)), ("gt", QueryValue::Int(3))]))]);
    match &p.source {
        CandidateSource::PredicatePushdown(pred) => {
            // `gt` is tried before `lt`.
            assert_eq!(pred.op, FilterOp::Gt);
            assert_eq!(pred.value, QueryValue::Int(3));
            assert_eq!(pred.path.single(), Some("age"));
        }
        _ => panic!("expected a pushdown"),
    }
    assert_eq!(p.notes[0].kind, "sql_pushdown");
    assert_eq!(p.notes[0].detail, "`age gt` -> sql pushdown");

    let s = plan(vec![("name", QueryValue::String("bo".into()))]);
    assert_eq!(s.notes[0].detail, "scalar equality `name` -> sql pushdown");
    let c = plan(vec![("name", obj(vec![("contains", QueryValue::String("o".into()))]))]);
    assert_eq!(c.notes[0].detail, "contains `name` -> sql pushdown");
    // `contains` on a non-string falls through to relation planning, which
    // finds no relation named `name`.
    let n = plan(vec![("name", obj(vec![("contains", QueryValue::Int(1))]))]);
    assert!(matches!(n.source, CandidateSource::FullTypeScan));
}

#[test]
fn text_operators_use_text_indexes_and_geo_stays_residual() {
    let t = plan(vec![("title", obj(vec![("allofterms", QueryValue::String("a b".into()))]))]);
    match &t.source {
        CandidateSource::TextIndex { field, op, query } => {
            assert_eq!(field, "title");
            assert_eq!(*op, FilterOp::AllOfTerms);
            assert_eq!(query, "a b");
        }
        _ => panic!("expected a text index"),
    }
    assert_eq!(t.notes[0].kind, "term_index");
    let f = plan(vec![("title", obj(vec![("anyoftext", QueryValue::String("a".into()))]))]);
    assert_eq!(f.notes[0].kind, "fulltext_index");
    assert_eq!(f.notes[0].detail, "`title anyoftext` -> term index lookup");

    let g = plan(vec![("loc", obj(vec![("near", QueryValue::Null)]))]);
    assert!(matches!(g.source, CandidateSource::FullTypeScan));
    assert!(g.residual.is_some());
}

#[test]
fn several_paths_intersect_in_key_order() {
    let p = plan(vec![
        ("name", obj(vec![("contains", QueryValue::String("o".into()))])),
        ("age", obj(vec![("ge", QueryValue::Int(18))])),
        ("and", QueryValue::List(vec![])),
    ]);
    match &p.source {
        CandidateSource::Intersection(children) => {
            assert_eq!(children.len(), 2);
            match &children[0].source {
                CandidateSource::PredicatePushdown(pred) => assert_eq!(pred.path.single(), Some("age")),
                _ => panic!("expected age first"),
            }
            match &children[1].source {
                CandidateSource::PredicatePushdown(pred) => assert_eq!(pred.path.single(), Some("name")),
                _ => panic!("expected name second"),
            }
            assert!(children.iter().all(|c| c.residual.is_none() && c.notes.is_empty() && c.type_label == "User"));
        }
        _ => panic!("expected an intersection"),
    }
    assert_eq!(note_kinds(&p), vec!["sql_pushdown", "sql_pushdown"]);
}

#[test]
fn later_duplicate_keys_win() {
    let p = plan(vec![("age", QueryValue::Int(1)), ("age", obj(vec![("le", QueryValue::Int(5))]))]);
    match &p.source {
        CandidateSource::PredicatePushdown(pred) => assert_eq!(pred.op, FilterOp::Le),
        _ => panic!("expected a pushdown"),
    }
}

#[test]
fn nested_relation_filters_expand_through_the_inverse() {
    let p = plan(vec![("posts", obj(vec![("slug", QueryValue::String("x".into()))]))]);
    match &p.source {
        CandidateSource::RelationExpansion { field, target_type, child_plan, inverse_field, child_raw_filter, child_uniques } => {
            assert_eq!(field, "posts");
            assert_eq!(target_type, "Post");
            assert_eq!(inverse_field, "author");
            assert_eq!(child_uniques, &vec!["slug".to_string()]);
            assert_eq!(child_raw_filter.as_ref().map(|m| m.len()), Some(1));
            assert_eq!(child_plan.type_label, "Post");
            assert_eq!(child_plan.source.kind(), "unique_lookup");
        }
        _ => panic!("expected a relation expansion"),
    }
    assert_eq!(
        p.notes[0].detail,
        "nested filter on relation `posts` -> plan children of Post then expand inverse `author`"
    );
    // The expansion answers the relation conjunct; nothing is left.
    assert!(p.residual.is_none());

    // Without an inverse edge the nested filter stays residual.
    let f = plan(vec![("friends", obj(vec![("email", QueryValue::String("a".into()))]))]);
    assert!(matches!(f.source, CandidateSource::FullTypeScan));
    assert!(matches!(f.residual, Some(LogicalFilter::And(ref parts)) if parts.len() == 1));

    // Other conjuncts survive the stripping.
    let both = plan(vec![
        ("posts", obj(vec![("slug", QueryValue::String("x".into()))])),
        ("age", QueryValue::Int(3)),
    ]);
    assert_eq!(both.source.kind(), "intersection");
    match &both.residual {
        Some(LogicalFilter::And(parts)) => {
            assert_eq!(parts.len(), 1);
            assert!(matches!(parts[0], LogicalFilter::Predicate(_)));
        }
        _ => panic!("expected the age conjunct to remain"),
    }
}

#[test]
fn unknown_types_plan_without_relations() {
    let meta = catalog();
    let ctx = PlanContext { db_name: "db", type_label: "Ghost", uniques: &[], metadata: &meta };
    let p = build_candidate_plan(&ctx, &entries(vec![("posts", obj(vec![("slug", QueryValue::Int(1))]))]));
    assert_eq!(p.type_label, "Ghost");
    assert!(matches!(p.source, CandidateSource::FullTypeScan));
}
