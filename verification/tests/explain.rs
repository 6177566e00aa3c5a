use vardadb::query_planner::context::QueryTypeMetadata;
use vardadb::query_planner::explain::{render_candidate_plan, render_filter, render_logical_query, render_root};
use vardadb::query_planner::ir::{
    EntityId, FieldPath, FilterOp, FilterPredicate, LogicalFilter, LogicalQuery, QueryRoot, QueryValue, SortDirection,
};
use vardadb::query_planner::lowering::{lower_count_query, lower_get_query, lower_root_query};
use vardadb::query_planner::plan::{CandidatePlan, CandidateSource};
use vardadb::query_planner::planner::plan_candidates;

fn pred(field: &str, op: FilterOp, value: QueryValue) -> LogicalFilter {
    LogicalFilter::Predicate(FilterPredicate { path: FieldPath::field(field), op, value })
}

fn pairs(fields: Vec<(&str, QueryValue)>) -> Vec<(String, QueryValue)> {
    fields.into_iter().map(|(k, v)| (k.to_string(), v)).collect()
}

fn bare(type_label: &str, source: CandidateSource) -> CandidatePlan {
    CandidatePlan { type_label: type_label.to_string(), source, residual: None, notes: vec![] }
}

#[test]
fn sources_describe_themselves() {
    assert_eq!(CandidateSource::FullTypeScan.describe(), "full type scan");
    let unique = CandidateSource::UniqueLookup { field: "email".into(), value: QueryValue::String("a@b".into()) };
    assert_eq!(unique.describe(), "unique index lookup on `email`");
    let ordered = CandidateSource::OrderedIndexScan { field: "age".into(), direction: SortDirection::Desc };
    assert_eq!(ordered.describe(), "ordered index scan on `age` (desc)");
    let pushed = CandidateSource::PredicatePushdown(FilterPredicate {
        path: FieldPath::field("age"),
        op: FilterOp::Gt,
        value: QueryValue::Int(3),
    });
    assert_eq!(pushed.describe(), "sql pushdown `age gt Int(3)`");
    let text = CandidateSource::TextIndex { field: "title".into(), op: FilterOp::AllOfText, query: "rust lang".into() };
    assert_eq!(text.describe(), "alloftext index lookup on `title` for \"rust lang\"");
    let both = CandidateSource::Intersection(vec![bare("User", CandidateSource::FullTypeScan), bare("User", ordered)]);
    assert_eq!(both.describe(), "intersection of 2 candidate sets");
    assert_eq!(CandidateSource::Union(vec![]).describe(), "union of 0 candidate sets");
}

#[test]
fn filters_render_as_nested_terms() {
    let f = LogicalFilter::And(vec![
        pred("age", FilterOp::Eq, QueryValue::Int(3)),
        LogicalFilter::Not(Box::new(pred("name", FilterOp::Ne, QueryValue::String("x".into())))),
    ]);
    assert_eq!(render_filter(&f), "AND(age eq Int(3), NOT(name ne String(\"x\")))");
    let typed = LogicalFilter::Relation {
        field: "posts".into(),
        target_type: "Post".into(),
        filter: Box::new(pred("title", FilterOp::Contains, QueryValue::String("a".into()))),
    };
    assert_eq!(render_filter(&typed), "RELATION posts { :Post title contains String(\"a\")}");
    let untyped = LogicalFilter::Relation {
        field: "posts".into(),
        target_type: String::new(),
        filter: Box::new(LogicalFilter::Or(vec![])),
    };
    assert_eq!(render_filter(&untyped), "RELATION posts { OR()}");
}

#[test]
fn candidate_plans_render_notes_sources_and_residual() {
    let meta = vec![(
        "User".to_string(),
        QueryTypeMetadata { uniques: vec!["email".to_string()], relations: vec![], inverses: vec![] },
    )];
    let empty = plan_candidates("db", "User", &vec![], &[], &meta);
    assert_eq!(
        render_candidate_plan(&empty),
        "CandidatePlan(type=User)\n  [full_type_scan] no candidate-producing conjuncts; residual filtering handles all predicates\n    - full type scan\n"
    );
    let nested = CandidatePlan {
        type_label: "User".into(),
        source: CandidateSource::Union(vec![bare("User", CandidateSource::FullTypeScan)]),
        residual: Some(LogicalFilter::And(vec![])),
        notes: vec![],
    };
    assert_eq!(
        render_candidate_plan(&nested),
        "CandidatePlan(type=User)\n    - union of 1 candidate sets\n      - full type scan\n  residual: AND()\n"
    );
}

#[test]
fn root_queries_lower_and_render() {
    let q = lower_root_query(
        "User",
        &pairs(vec![("age", QueryValue::Int(3))]),
        &pairs(vec![("name", QueryValue::Enum("DESC".into()))]),
        Some(5),
        Some("12".to_string()),
        None,
    );
    assert_eq!(
        render_logical_query(&q),
        "LogicalQuery\n  root: TypeScan(User)\n  filter: AND(age eq Int(3))\n  order_by: name DESC\n  pagination: first=Some(5) offset=None after=Some(\"12\")\n"
    );
    let unparsed = lower_root_query("User", &vec![], &vec![], None, Some("abc".to_string()), Some(2));
    assert!(unparsed.pagination.after.is_none());
    assert_eq!(
        render_logical_query(&unparsed),
        "LogicalQuery\n  root: TypeScan(User)\n  filter: AND()\n  pagination: first=None offset=Some(2) after=None\n"
    );
}

#[test]
fn count_and_get_queries_lower_and_render() {
    let count = lower_count_query("User", &vec![]);
    assert_eq!(count.aggregates.len(), 1);
    assert_eq!(render_logical_query(&count), "LogicalQuery\n  root: TypeScan(User)\n  filter: AND()\n  aggregates: _count()\n");
    let get = lower_get_query("User", "email", &QueryValue::String("a@b".into()));
    assert_eq!(
        render_logical_query(&get),
        "LogicalQuery\n  root: UniqueLookup(User.email = String(\"a@b\"))\n  filter: none\n"
    );
    let scan = LogicalQuery::scan("Post");
    assert_eq!(scan.root.type_label(), "Post");
    assert_eq!(render_root(&QueryRoot::IdLookup { type_label: "User".into(), id: EntityId::new(7) }), "IdLookup(User.7)");
    assert_eq!(
        render_root(&QueryRoot::RelationScan { parent_type: "User".into(), parent_id: None, field: "posts".into() }),
        "RelationScan(User via posts)"
    );
}
