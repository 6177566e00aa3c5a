use vardadb::query_planner::adapters::{runtime_for_test_stub, TestRuntime};
use vardadb::query_planner::context::{InverseInfo, QueryTypeMetadata};
use vardadb::query_planner::ir::{EntityId, FieldPath, FilterOp, FilterPredicate, QueryValue, SortDirection};
use vardadb::query_planner::operators::source::{build_source_tree, sort_by_uid};
use vardadb::query_planner::operators::{
    ExecContext, ExplainCapture, FlowResult, FullTypeScan, Operator, OrderedIndexScan, OutputOrdering, PlannerError,
    PredicatePushdownSource, UniqueLookupSource,
};
use vardadb::query_planner::plan::{CandidateOutcome, CandidatePlan, CandidateSource};
use vardadb::query_planner::planner::plan_candidates;
use vardadb::query_planner::value_text::append_value_debug;

fn debug(v: &QueryValue) -> String {
    let mut s = String::new();
    append_value_debug(&mut s, v);
    s
}

fn details(op: &Operator) -> Vec<String> {
    let mut out = vec![op.detail()];
    let mut cur = op;
    while let Some(k) = cur.children().first().copied() {
        out.push(k.detail());
        cur = k;
    }
    out
}

fn catalog() -> Vec<(String, QueryTypeMetadata)> {
    vec![
        (
            "User".to_string(),
            QueryTypeMetadata {
                uniques: vec!["email".to_string()],
                relations: vec![("posts".to_string(), "Post".to_string())],
                inverses: vec![InverseInfo { field: "posts".to_string(), inverse_field: "author".to_string() }],
            },
        ),
        ("Post".to_string(), QueryTypeMetadata { uniques: vec!["slug".to_string()], relations: vec![], inverses: vec![] }),
    ]
}

fn plan(filter: Vec<(&str, QueryValue)>) -> CandidatePlan {
    let entries: Vec<(String, QueryValue)> = filter.into_iter().map(|(k, v)| (k.to_string(), v)).collect();
    plan_candidates("db", "User", &entries, &["email".to_string()], &catalog())
}

fn obj(fields: Vec<(&str, QueryValue)>) -> QueryValue {
    QueryValue::Object(fields.into_iter().map(|(k, v)| (k.to_string(), v)).collect())
}

#[test]
fn values_render_like_their_debug_form() {
    assert_eq!(debug(&QueryValue::Null), "Null");
    assert_eq!(debug(&QueryValue::Bool(false)), "Bool(false)");
    assert_eq!(debug(&QueryValue::Int(-42)), "Int(-42)");
    assert_eq!(debug(&QueryValue::Int(i64::MIN)), "Int(-9223372036854775808)");
    assert_eq!(debug(&QueryValue::String("a \"b\"".into())), "String(\"a \\\"b\\\"\")");
    assert_eq!(debug(&QueryValue::Enum("DESC".into())), "Enum(\"DESC\")");
    assert_eq!(debug(&QueryValue::Float(1.5f64.to_bits())), "Float(0x3ff8000000000000)");
    assert_eq!(debug(&QueryValue::List(vec![])), "List([])");
    assert_eq!(debug(&QueryValue::List(vec![QueryValue::Int(1), QueryValue::Null])), "List([Int(1), Null])");
    assert_eq!(
        debug(&obj(vec![("a", QueryValue::Int(1)), ("b", QueryValue::Bool(true))])),
        "Object({\"a\": Int(1), \"b\": Bool(true)})"
    );
    assert_eq!(debug(&QueryValue::EntityId(EntityId::new(7))), "EntityId(EntityId { type_name: None, uid: 7 })");
    assert_eq!(
        debug(&QueryValue::EntityId(EntityId::typed("User", 7))),
        "EntityId(EntityId { type_name: Some(\"User\"), uid: 7 })"
    );
}

#[test]
fn storage_sources_describe_and_read_through_the_runtime() {
    let runtime = runtime_for_test_stub();
    let mut ctx = ExecContext::new(&runtime, "db");
    ctx.explain = ExplainCapture::new(true);

    let full = Operator::FullScan(FullTypeScan::new("User"));
    assert_eq!(full.detail(), "full_type_scan type=User");
    assert!(matches!(full.execute(&mut ctx), FlowResult::Rows(ref b) if b.len() == 1 && b[0].0.is_empty()));

    let unique = Operator::UniqueLookup(UniqueLookupSource {
        type_label: "User".into(),
        field: "email".into(),
        value: QueryValue::String("a@b".into()),
    });
    assert_eq!(unique.detail(), "unique_lookup type=User field=email value=String(\"a@b\")");
    assert!(unique.cardinality().is_at_most_one());
    assert!(matches!(unique.execute(&mut ctx), FlowResult::Rows(ref b) if b.len() == 1 && b[0].0.is_empty()));

    let ordered = Operator::OrderedScan(OrderedIndexScan {
        type_label: "User".into(),
        field: "age".into(),
        direction: SortDirection::Desc,
        cursor: None,
        limit: None,
    });
    assert_eq!(ordered.detail(), "ordered_index_scan type=User field=age dir=desc");
    match ordered.output_ordering() {
        OutputOrdering::Sorted { field, direction } => {
            assert_eq!(field, "age");
            assert_eq!(direction, SortDirection::Desc);
        }
        OutputOrdering::Unordered => panic!("ordered scans declare their order"),
    }
    assert!(matches!(ordered.execute(&mut ctx), FlowResult::Rows(_)));

    // The stub storage cannot evaluate predicates: unsupported.
    let pushdown = Operator::Pushdown(PredicatePushdownSource {
        type_label: "User".into(),
        predicate: FilterPredicate { path: FieldPath::field("age"), op: FilterOp::Gt, value: QueryValue::Int(3) },
    });
    assert_eq!(pushdown.detail(), "predicate_pushdown type=User age gt Int(3)");
    match pushdown.execute(&mut ctx) {
        FlowResult::Error(PlannerError::Unsupported(m)) => assert_eq!(m, "predicate not pushable: age Gt"),
        other => panic!("expected unsupported, got error={}", other.is_error()),
    }
    let stats = ctx.explain.stats();
    assert_eq!(stats.len(), 4);
    assert_eq!(stats[3].detail, "predicate_pushdown type=User age gt Int(3) [unsupported]");
}

#[test]
fn uid_sort_is_stable() {
    let ids = vec![EntityId::typed("b", 3), EntityId::new(1), EntityId::typed("a", 3), EntityId::new(2)];
    let sorted = sort_by_uid(ids);
    let got: Vec<(u64, Option<String>)> = sorted.into_iter().map(|e| (e.uid, e.entity_type)).collect();
    assert_eq!(
        got,
        vec![(1, None), (2, None), (3, Some("b".to_string())), (3, Some("a".to_string()))]
    );
}

#[test]
fn plans_build_matching_source_trees() {
    let p = plan(vec![("posts", obj(vec![("slug", QueryValue::String("x".into()))]))]);
    let tree = build_source_tree(&p.type_label, &p.source).unwrap();
    assert_eq!(
        details(&tree),
        vec![
            "relation_expand target=Post inverse_field=author".to_string(),
            "residual(1 conditions)".to_string(),
            "unique_lookup type=Post field=slug value=String(\"x\")".to_string(),
        ]
    );

    let both = plan(vec![
        ("age", obj(vec![("gt", QueryValue::Int(3))])),
        ("title", obj(vec![("anyoftext", QueryValue::String("rust".into()))])),
    ]);
    let tree = build_source_tree(&both.type_label, &both.source).unwrap();
    assert_eq!(tree.detail(), "intersection sources=2");
    let kids: Vec<String> = tree.children().iter().map(|k| k.detail()).collect();
    assert_eq!(
        kids,
        vec!["predicate_pushdown type=User age gt Int(3)".to_string(), "text_bm25_scan type=User field=title op=anyoftext k=None".to_string()]
    );

    let none = plan(vec![]);
    assert_eq!(build_source_tree(&none.type_label, &none.source).unwrap().detail(), "full_type_scan type=User");
}

#[test]
fn plan_execution_narrows_by_access_path() {
    let runtime: TestRuntime = runtime_for_test_stub();
    // A full scan never narrows by itself.
    assert!(matches!(plan(vec![]).execute(&runtime), CandidateOutcome::NoNarrowing));
    // A unique miss is an authoritative empty result.
    assert_eq!(plan(vec![("email", QueryValue::String("a".into()))]).execute_uids(&runtime), Some(vec![]));
    // Storage that cannot push the predicate down does not narrow.
    assert_eq!(plan(vec![("age", QueryValue::Int(3))]).execute_uids(&runtime), None);
    // A relation expansion follows the inverse edge of the (empty) children.
    assert_eq!(
        plan(vec![("posts", obj(vec![("slug", QueryValue::String("x".into()))]))]).execute_uids(&runtime),
        Some(vec![])
    );
    // An intersection whose first child does not narrow yields nothing.
    let both = plan(vec![("age", QueryValue::Int(3)), ("email", QueryValue::String("a".into()))]);
    assert!(matches!(both.source, CandidateSource::Intersection(_)));
    assert_eq!(both.execute_uids(&runtime), Some(vec![]));
}
