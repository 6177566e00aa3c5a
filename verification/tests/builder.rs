use vardadb::query_planner::adapters::{RelationEdge, StoredValue, TestRuntime};
use vardadb::query_planner::ir::{FieldPath, FilterOp, LogicalFilter, OrderKey, QueryValue, SortDirection};
use vardadb::query_planner::context::QueryTypeMetadata;
use vardadb::query_planner::operators::builder::{
    build_count_pipeline, build_relation_pipeline, build_scan_pipeline, finish_chain, text_search_op,
};
use vardadb::query_planner::operators::pagination::CursorMode;
use vardadb::query_planner::operators::{ExecContext, FlowResult, Operator, VecSource};
use vardadb::query_planner::plan::CandidateSource;

fn edge(from: u64, field: &str, to: u64) -> RelationEdge {
    RelationEdge { from, field: field.to_string(), to }
}

fn stored(uid: u64, field: &str, value: QueryValue) -> StoredValue {
    StoredValue { uid, field: field.to_string(), value }
}

fn details(op: &Operator) -> Vec<String> {
    let mut out = vec![op.detail()];
    let mut cur = op;
    loop {
        let kids = cur.children();
        match kids.first() {
            Some(k) => {
                out.push(k.detail());
                cur = k;
            }
            None => break,
        }
    }
    out
}

fn run(op: &Operator, runtime: &TestRuntime) -> Vec<u64> {
    let mut ctx = ExecContext::new(runtime, "db");
    match op.execute(&mut ctx) {
        FlowResult::Rows(batches) => batches.into_iter().flat_map(|b| b.0.into_iter().map(|e| e.uid)).collect(),
        other => panic!("expected rows, got error={}", other.is_error()),
    }
}

#[test]
fn text_search_op_selects_the_operator() {
    assert_eq!(text_search_op("Post", "title", "term", "q", true, 5).op, FilterOp::AllOfTerms);
    assert_eq!(text_search_op("Post", "title", "term", "q", false, 5).op, FilterOp::AnyOfTerms);
    assert_eq!(text_search_op("Post", "title", "fulltext", "q", true, 5).op, FilterOp::AllOfText);
    assert_eq!(text_search_op("Post", "title", "fulltext", "q", false, 5).op, FilterOp::AnyOfText);
    assert_eq!(text_search_op("Post", "title", "other", "q", true, 5).op, FilterOp::AnyOfText);
    let scan = text_search_op("Post", "body", "term", "hello", false, 200);
    assert_eq!(scan.limit, Some(200));
    assert_eq!(scan.field, "body");
    assert_eq!(scan.query, "hello");
    assert_eq!(scan.type_label, "Post");
}

#[test]
fn finish_chain_stacks_filter_sort_cursor_offset_limit() {
    let source = Box::new(Operator::Values(VecSource::new("src", vec![1, 2, 3])));
    let residual = Some(LogicalFilter::Predicate(vardadb::query_planner::ir::FilterPredicate {
        path: FieldPath::field("age"),
        op: FilterOp::Gt,
        value: QueryValue::Int(3),
    }));
    let keys = vec![OrderKey { path: FieldPath::field("age"), direction: SortDirection::Desc }];
    let root = finish_chain(source, residual, keys, Some("7"), Some(2), Some(10), false);
    assert_eq!(
        details(&root),
        vec![
            "limit(10)".to_string(),
            "offset(2)".to_string(),
            "cursor_skip(after=Some(7), mode=KeepAllIfAbsent)".to_string(),
            "sort(age desc)".to_string(),
            "residual(1 conditions)".to_string(),
            "vec_source src n=3".to_string(),
        ]
    );

    // An empty conjunction, no keys, no offset or limit: only the cursor.
    let bare = finish_chain(
        Box::new(Operator::Values(VecSource::new("src", vec![]))),
        Some(LogicalFilter::And(vec![])),
        vec![],
        Some("not a uid"),
        None,
        None,
        true,
    );
    assert_eq!(
        details(&bare),
        vec!["cursor_skip(after=None, mode=EmptyIfAbsent)".to_string(), "vec_source src n=0".to_string()]
    );
}

#[test]
fn relation_pipeline_filters_sorts_and_pages_related_rows() {
    let runtime = TestRuntime::with_stored(
        vec![edge(1, "posts", 10), edge(1, "posts", 11), edge(1, "posts", 12), edge(1, "posts", 13)],
        vec![
            stored(10, "score", QueryValue::Int(4)),
            stored(11, "score", QueryValue::Int(9)),
            stored(12, "score", QueryValue::Int(1)),
            stored(13, "score", QueryValue::Int(7)),
        ],
    );
    let sort = vec![("score".to_string(), QueryValue::Enum("DESC".to_string()))];
    let pipeline = build_relation_pipeline(1, "posts", &vec![], &sort, Some(2), None, Some(1));
    assert_eq!(pipeline.shape, "related_ids");
    assert!(!pipeline.used_candidates);
    // Sorted 11 (9), 13 (7), 10 (4), 12 (1); skip one, keep two.
    assert_eq!(run(&pipeline.root, &runtime), vec![13, 10]);

    // The cursor is positional over the sorted rows.
    let after = build_relation_pipeline(1, "posts", &vec![], &sort, None, Some("13"), None);
    assert_eq!(run(&after.root, &runtime), vec![10, 12]);

    // A filter argument lowers to a residual conjunction; the stub runtime
    // accepts every leaf condition, so only the structure shows.
    let filter = vec![("score".to_string(), QueryValue::Int(4))];
    let filtered = build_relation_pipeline(1, "posts", &filter, &vec![], None, None, None);
    assert_eq!(details(&filtered.root)[1], "residual(1 conditions)");
    assert_eq!(run(&filtered.root, &runtime), vec![10, 11, 12, 13]);
}

fn user_catalog() -> Vec<(String, QueryTypeMetadata)> {
    vec![(
        "User".to_string(),
        QueryTypeMetadata { uniques: vec!["email".to_string()], relations: vec![], inverses: vec![] },
    )]
}

fn pairs(fields: Vec<(&str, QueryValue)>) -> Vec<(String, QueryValue)> {
    fields.into_iter().map(|(k, v)| (k.to_string(), v)).collect()
}

#[test]
fn unfiltered_scan_streams_the_whole_type_and_seeks_its_cursor() {
    let runtime = TestRuntime::with_edges(vec![]);
    let mut ctx = ExecContext::new(&runtime, "db");
    let uniques = vec!["email".to_string()];
    let p = build_scan_pipeline("db", "User", &vec![], &vec![], Some(5), Some("7"), None, None, &uniques, &user_catalog(), &mut ctx);
    assert_eq!(p.shape, "full_type_scan_streaming");
    assert!(!p.used_candidates);
    assert!(matches!(p.plan.as_ref().map(|q| &q.source), Some(CandidateSource::FullTypeScan)));
    match &*p.root {
        Operator::Limit(l) => {
            assert_eq!(l.limit, 5);
            match &*l.input {
                Operator::CursorSkip(c) => {
                    assert_eq!(c.after, Some(7));
                    assert!(matches!(c.mode, CursorMode::EmptyIfAbsent));
                    assert!(matches!(&*c.input, Operator::FullScan(f) if f.type_label == "User"));
                }
                _ => panic!("expected a cursor step"),
            }
        }
        _ => panic!("expected a limit"),
    }
}

#[test]
fn unique_filter_scan_narrows_through_the_plan() {
    let runtime = TestRuntime::with_edges(vec![]);
    let mut ctx = ExecContext::new(&runtime, "db");
    let uniques = vec!["email".to_string()];
    let filter = pairs(vec![("email", QueryValue::String("a@b".into()))]);
    let p = build_scan_pipeline("db", "User", &filter, &vec![], None, None, None, None, &uniques, &user_catalog(), &mut ctx);
    assert_eq!(p.shape, "unique_lookup");
    assert!(p.used_candidates);
    match &*p.root {
        Operator::CursorSkip(c) => {
            assert!(matches!(c.mode, CursorMode::KeepAllIfAbsent));
            match &*c.input {
                Operator::Filter(f) => assert!(matches!(&*f.input, Operator::UniqueLookup(u) if u.field == "email")),
                _ => panic!("expected the residual filter"),
            }
        }
        _ => panic!("expected a cursor step over the lookup"),
    }
}

#[test]
fn sorted_scan_takes_the_order_index_probe_even_when_empty() {
    let runtime = TestRuntime::with_edges(vec![]);
    let mut ctx = ExecContext::new(&runtime, "db");
    let sort = pairs(vec![("age", QueryValue::Enum("DESC".into()))]);
    let p = build_scan_pipeline("db", "User", &vec![], &sort, None, None, Some(2), None, &[], &user_catalog(), &mut ctx);
    assert_eq!(p.shape, "ordered_index_scan");
    assert!(p.used_candidates);
    match &*p.root {
        Operator::Offset(o) => {
            assert_eq!(o.offset, 2);
            match &*o.input {
                Operator::CursorSkip(c) => {
                    assert!(matches!(c.mode, CursorMode::EmptyIfAbsent));
                    match &*c.input {
                        Operator::Sort(s) => {
                            assert_eq!(s.keys.len(), 1);
                            assert_eq!(s.keys[0].direction, SortDirection::Desc);
                            assert!(s.eliminated());
                            match &*s.input {
                                Operator::Values(v) => {
                                    assert_eq!(v.label, "ordered_index_probe User.age");
                                    assert!(v.ids.is_empty());
                                }
                                _ => panic!("expected the probed rows"),
                            }
                        }
                        _ => panic!("expected a sort"),
                    }
                }
                _ => panic!("expected a cursor step"),
            }
        }
        _ => panic!("expected an offset"),
    }
    assert!(run(&p.root, &runtime).is_empty());
}

#[test]
fn text_search_scan_keeps_four_pages_of_matches_under_the_filter() {
    let runtime = TestRuntime::with_edges(vec![]);
    let mut ctx = ExecContext::new(&runtime, "db");
    let search = ("title".to_string(), "fulltext".to_string(), "rust".to_string(), true);
    let filter = pairs(vec![("age", QueryValue::Int(3))]);
    let p = build_scan_pipeline("db", "Post", &filter, &vec![], Some(10), None, None, Some(&search), &[], &user_catalog(), &mut ctx);
    assert_eq!(p.shape, "text_bm25");
    assert!(!p.used_candidates);
    assert!(p.plan.is_none());
    match &*p.root {
        Operator::Limit(l) => match &*l.input {
            Operator::CursorSkip(c) => match &*c.input {
                Operator::Filter(f) => match &*f.input {
                    Operator::TextSearch(t) => {
                        assert_eq!(t.limit, Some(40));
                        assert_eq!(t.op, FilterOp::AllOfText);
                        assert_eq!(t.query, "rust");
                    }
                    _ => panic!("expected the text scan"),
                },
                _ => panic!("expected the residual filter"),
            },
            _ => panic!("expected a cursor step"),
        },
        _ => panic!("expected a limit"),
    }
}

#[test]
fn count_pipeline_filters_without_pagination() {
    let runtime = TestRuntime::with_edges(vec![]);
    let plain = build_count_pipeline("db", "User", &vec![], None, &[], &user_catalog(), &runtime);
    assert_eq!(plain.shape, "full_type_scan_streaming");
    assert!(matches!(&*plain.root, Operator::FullScan(_)));
    let filter = pairs(vec![("age", QueryValue::Int(3))]);
    let filtered = build_count_pipeline("db", "User", &filter, None, &[], &user_catalog(), &runtime);
    assert_eq!(filtered.shape, "predicate_pushdown");
    assert!(filtered.used_candidates);
    assert!(matches!(&*filtered.root, Operator::Filter(f) if matches!(&*f.input, Operator::Pushdown(_))));
    let search = ("title".to_string(), "term".to_string(), "rust".to_string(), false);
    let counted = build_count_pipeline("db", "Post", &vec![], Some(&search), &[], &user_catalog(), &runtime);
    assert_eq!(counted.shape, "text_bm25");
    assert!(matches!(&*counted.root, Operator::TextSearch(t) if t.limit == Some(10000) && t.op == FilterOp::AnyOfTerms));
}
