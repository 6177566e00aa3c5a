use vardadb::engine::schema::{RangeBound, TypeKind, ValidationRule};
use vardadb::engine::sdl::{
    field_type_name, rules_of_field, strategies_of, type_metadata, SdlDirective, SdlField, SdlKind, SdlType,
    SdlTypeDef, SdlValue, TypeMetadataModel,
};

fn named(n: &str) -> SdlType {
    SdlType::Named(n.to_string())
}

fn list(t: SdlType) -> SdlType {
    SdlType::List(Box::new(t))
}

fn dir(name: &str, args: Vec<(&str, SdlValue)>) -> SdlDirective {
    SdlDirective { name: name.to_string(), arguments: args.into_iter().map(|(k, v)| (k.to_string(), v)).collect() }
}

fn field(name: &str, ty: SdlType, directives: Vec<SdlDirective>) -> SdlField {
    SdlField { name: name.to_string(), ty, required: false, directives }
}

fn object(name: &str, fields: Vec<SdlField>) -> SdlTypeDef {
    SdlTypeDef { name: name.to_string(), kind: SdlKind::Object { fields, implements: vec![] } }
}

fn s(v: &str) -> SdlValue {
    SdlValue::Str(v.to_string())
}

fn e(v: &str) -> SdlValue {
    SdlValue::Enum(v.to_string())
}

fn num(i: i64) -> SdlValue {
    SdlValue::Number { as_int: Some(i), as_float: bound(i as f64) }
}

fn bound(x: f64) -> RangeBound {
    RangeBound { bits: x.to_bits(), text: format!("{x}") }
}

fn lookup<'a>(table: &'a [(String, TypeMetadataModel)], name: &str) -> &'a TypeMetadataModel {
    &table.iter().find(|(k, _)| k == name).expect("type present").1
}

fn strings(v: &[&str]) -> Vec<String> {
    v.iter().map(|x| x.to_string()).collect()
}

fn pairs(v: &[(&str, &str)]) -> Vec<(String, String)> {
    v.iter().map(|(a, b)| (a.to_string(), b.to_string())).collect()
}

fn schema() -> Vec<SdlTypeDef> {
    vec![
        object(
            "User",
            vec![
                field("id", named("ID"), vec![dir("unique", vec![])]),
                field("email", named("String"), vec![dir("unique", vec![]), dir("regex", vec![("pattern", s("^.+@.+$"))])]),
                field(
                    "name",
                    named("String"),
                    vec![
                        dir("search", vec![("by", SdlValue::List(vec![e("term"), s("fulltext"), num(3)]))]),
                        dir("length", vec![("min", num(1)), ("max", num(50))]),
                    ],
                ),
                field("bio", named("String"), vec![dir("search", vec![])]),
                field("age", named("Int"), vec![dir("range", vec![("min", num(0)), ("max", num(150))])]),
                field("posts", list(named("Post")), vec![dir("hasInverse", vec![("field", s("author"))])]),
                field("role", named("Role"), vec![]),
            ],
        ),
        object(
            "Post",
            vec![
                field("title", named("String"), vec![dir("search", vec![("by", e("exact"))])]),
                field("author", named("User"), vec![]),
                field("tags", list(named("Tag")), vec![dir("cascade", vec![])]),
                field("embedding", list(named("Float")), vec![dir("vector", vec![("from", s("title"))])]),
            ],
        ),
        object("Tag", vec![field("label", named("String"), vec![])]),
        SdlTypeDef { name: "Role".to_string(), kind: SdlKind::Enum(strings(&["ADMIN"])) },
        SdlTypeDef { name: "Node".to_string(), kind: SdlKind::Interface(vec![]) },
        SdlTypeDef { name: "Item".to_string(), kind: SdlKind::Union(strings(&["User", "Post"])) },
        SdlTypeDef { name: "DateTime".to_string(), kind: SdlKind::Scalar },
        object("Query", vec![field("users", list(named("User")), vec![])]),
        object("__Meta", vec![]),
    ]
}

#[test]
fn metadata_covers_objects_interfaces_and_unions() {
    let table = type_metadata(&schema());
    let names: Vec<&str> = table.iter().map(|(k, _)| k.as_str()).collect();
    assert_eq!(names, vec!["User", "Post", "Tag", "Node", "Item"]);
    assert_eq!(lookup(&table, "Node").kind, TypeKind::Interface);
    assert_eq!(lookup(&table, "Item").kind, TypeKind::Union(strings(&["User", "Post"])));
    assert!(lookup(&table, "Item").uniques.is_empty());
}

#[test]
fn uniques_search_and_rules_follow_the_directives() {
    let table = type_metadata(&schema());
    let user = lookup(&table, "User");
    assert_eq!(user.uniques, strings(&["id", "email"]));
    assert_eq!(
        user.search_fields,
        vec![("name".to_string(), strings(&["term", "fulltext"])), ("bio".to_string(), strings(&["term"]))]
    );
    assert_eq!(user.validate_fields.len(), 3);
    assert_eq!(user.validate_fields[0].0, "email");
    assert!(matches!(&user.validate_fields[0].1[..], [ValidationRule::Regex(p)] if p == "^.+@.+$"));
    assert!(matches!(
        &user.validate_fields[1].1[..],
        [ValidationRule::Length { min: Some(1), max: Some(50) }]
    ));
    match &user.validate_fields[2].1[..] {
        [ValidationRule::Range { min: Some(lo), max: Some(hi) }] => {
            assert_eq!(f64::from_bits(lo.bits), 0.0);
            assert_eq!(f64::from_bits(hi.bits), 150.0);
        }
        other => panic!("unexpected rules {}", other.len()),
    }
    // Enum-typed fields count as relations, like any non-scalar type.
    assert_eq!(user.relations, pairs(&[("posts", "Post"), ("role", "Role")]));
}

#[test]
fn inverses_are_declared_or_found() {
    let table = type_metadata(&schema());
    let user = lookup(&table, "User");
    assert_eq!(user.inverses.len(), 1);
    let declared = &user.inverses[0];
    assert_eq!((declared.field.as_str(), declared.inverse_type.as_str(), declared.inverse_field.as_str()), ("posts", "Post", "author"));
    assert!(!declared.inverse_is_list);
    let post = lookup(&table, "Post");
    assert_eq!(post.inverses.len(), 1);
    let found = &post.inverses[0];
    assert_eq!((found.field.as_str(), found.inverse_type.as_str(), found.inverse_field.as_str()), ("author", "User", "posts"));
    assert!(found.inverse_is_list);
}

#[test]
fn cascade_vector_and_relations_of_posts() {
    let table = type_metadata(&schema());
    let post = lookup(&table, "Post");
    assert_eq!(post.cascade_fields, pairs(&[("tags", "Tag")]));
    assert_eq!(post.vector, Some(("embedding".to_string(), "title".to_string())));
    assert_eq!(post.relations, pairs(&[("author", "User"), ("tags", "Tag")]));
    assert_eq!(post.search_fields, vec![("title".to_string(), strings(&["exact"]))]);
}

#[test]
fn ambiguous_back_pointers_give_no_inverse() {
    let defs = vec![
        object("A", vec![field("b", named("B"), vec![])]),
        object("B", vec![field("x", named("A"), vec![]), field("y", named("A"), vec![])]),
    ];
    let table = type_metadata(&defs);
    assert!(lookup(&table, "A").inverses.is_empty());
    // Each of B's fields finds A's single field `b`.
    assert_eq!(lookup(&table, "B").inverses.len(), 2);
}

#[test]
fn a_later_definition_replaces_an_earlier_one_in_place() {
    let defs = vec![
        object("T", vec![field("a", named("ID"), vec![dir("unique", vec![])])]),
        object("U", vec![]),
        object("T", vec![field("b", named("ID"), vec![dir("unique", vec![])])]),
    ];
    let table = type_metadata(&defs);
    assert_eq!(table.iter().map(|(k, _)| k.as_str()).collect::<Vec<_>>(), vec!["T", "U"]);
    assert_eq!(lookup(&table, "T").uniques, strings(&["b"]));
}

#[test]
fn helpers_read_types_strategies_and_rules() {
    assert_eq!(field_type_name(&list(list(named("Int")))), "String");
    assert_eq!(field_type_name(&list(named("Post"))), "Post");
    assert_eq!(strategies_of(&dir("search", vec![("by", SdlValue::Other)])), strings(&["term"]));
    assert_eq!(strategies_of(&dir("search", vec![("by", s("hash")), ("by", e("exact"))])), strings(&["hash", "exact"]));
    let float_only = SdlValue::Number { as_int: None, as_float: bound(2.5) };
    assert!(rules_of_field(&vec![dir("length", vec![("min", float_only)])]).is_empty());
    assert!(rules_of_field(&vec![dir("regex", vec![("pattern", num(1))])]).is_empty());
}
