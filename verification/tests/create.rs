use vardadb::engine::create::{link_created, linked_uid, missing_type_message, nested_inputs, parse_hex_u64, uid_from_argument};
use vardadb::query_planner::ir::QueryValue;

fn text(s: &str) -> QueryValue {
    QueryValue::String(s.to_string())
}

fn obj(entries: Vec<(&str, QueryValue)>) -> QueryValue {
    QueryValue::Object(entries.into_iter().map(|(k, v)| (k.to_string(), v)).collect())
}

fn entries(v: Vec<(&str, QueryValue)>) -> Vec<(String, QueryValue)> {
    v.into_iter().map(|(k, v)| (k.to_string(), v)).collect()
}

fn rels(v: &[(&str, &str)]) -> Vec<(String, String)> {
    v.iter().map(|(a, b)| (a.to_string(), b.to_string())).collect()
}

#[test]
fn uid_or_id_links_an_existing_node() {
    assert_eq!(linked_uid(&entries(vec![("uid", text("42")), ("name", text("x"))])), Some(42));
    assert_eq!(linked_uid(&entries(vec![("id", text("7"))])), Some(7));
    // `uid` is read first, even when it does not parse.
    assert_eq!(linked_uid(&entries(vec![("uid", text("abc")), ("id", text("7"))])), None);
    assert_eq!(linked_uid(&entries(vec![("uid", QueryValue::Int(5))])), None);
    assert_eq!(linked_uid(&entries(vec![("name", text("x"))])), None);
}

#[test]
fn nested_objects_are_created_relation_by_relation() {
    let fields = entries(vec![
        ("title", text("t")),
        ("author", obj(vec![("name", text("ann"))])),
        ("tags", QueryValue::List(vec![obj(vec![("label", text("a"))]), text("skip"), obj(vec![("label", text("b"))])])),
    ]);
    let relations = rels(&[("tags", "Tag"), ("author", "User"), ("missing", "X")]);
    let nested = nested_inputs(&fields, &relations);
    let shape: Vec<(usize, &str)> = nested.iter().map(|n| (n.relation, n.target.as_str())).collect();
    assert_eq!(shape, vec![(0, "Tag"), (0, "Tag"), (1, "User")]);
    assert_eq!(nested[1].fields[0].1, text("b"));
}

#[test]
fn created_uids_replace_the_nested_inputs() {
    let fields = entries(vec![
        ("title", text("t")),
        ("author", obj(vec![("name", text("ann"))])),
        ("tags", QueryValue::List(vec![obj(vec![]), text("skip"), obj(vec![])])),
        ("note", QueryValue::Int(1)),
    ]);
    let relations = rels(&[("tags", "Tag"), ("author", "User"), ("note", "Note")]);
    let linked = link_created(&fields, &relations, &vec![10, 11, 12]);
    assert_eq!(
        linked,
        entries(vec![
            ("title", text("t")),
            ("author", text("12")),
            ("tags", QueryValue::List(vec![text("10"), text("11")])),
            ("note", QueryValue::Int(1)),
        ])
    );
    let empty_list = entries(vec![("tags", QueryValue::List(vec![text("x")]))]);
    assert_eq!(link_created(&empty_list, &rels(&[("tags", "Tag")]), &vec![]), entries(vec![("tags", QueryValue::List(vec![]))]));
}

#[test]
fn unknown_types_are_reported() {
    assert_eq!(missing_type_message("Ghost"), "Type Ghost not found");
}

#[test]
fn get_arguments_read_hex_after_0x_else_decimal() {
    assert_eq!(uid_from_argument("0x1f"), 31);
    assert_eq!(uid_from_argument("0xFF"), 255);
    assert_eq!(uid_from_argument("42"), 42);
    assert_eq!(uid_from_argument("0xzz"), 0);
    assert_eq!(uid_from_argument("0x"), 0);
    assert_eq!(uid_from_argument("abc"), 0);
    assert_eq!(uid_from_argument("0x+a"), 10);
    assert_eq!(parse_hex_u64("ffffffffffffffff"), Some(u64::MAX));
    assert_eq!(parse_hex_u64("10000000000000000"), None);
    assert_eq!(parse_hex_u64("+"), None);
}
