use std::cmp::Ordering;
use vardadb::query_planner::physical_expr::compare::{parse_i64, value_cmp};
use vardadb::query_planner::function::{
    Abs, Concat, Count, Len, Lower, MathMax, MathMean, MathMin, MathSum, Param, Signature, Trim, Upper,
};
use vardadb::query_planner::ir::{EntityId, FieldPath, FieldSegment, QueryValue};
use vardadb::query_planner::physical_expr::{copy_value, value_kind, walk, ExprError, FieldExpr};

fn s(text: &str) -> QueryValue {
    QueryValue::String(text.to_string())
}

#[test]
fn signature_builders_declare_arity() {
    let sig = Signature::new().arg("a", "string").optional("b", "int").returning("string");
    assert_eq!(sig.min_args(), 1);
    assert_eq!(sig.max_args(), Some(2));
    assert!(!sig.accepts_arity(0));
    assert!(sig.accepts_arity(1));
    assert!(sig.accepts_arity(2));
    assert!(!sig.accepts_arity(3));
    assert_eq!(sig.arity_label(), "1..2");
    assert_eq!(sig.result_kind(), "string");
    assert_eq!(sig.params()[1], Param { name: "b", kind: "int", required: false });

    let variadic = Signature::new().arg("first", "string").variadic("rest");
    assert_eq!(variadic.max_args(), None);
    assert!(variadic.accepts_arity(40));
    assert_eq!(variadic.arity_label(), "1..N");
    assert_eq!(Signature::new().result_kind(), "any");
    assert_eq!(Signature::default().arity_label(), "0..0");
}

#[test]
fn len_counts_chars_items_and_fields() {
    assert_eq!(Len.evaluate(&[s("héllo")]), Ok(QueryValue::Int(5)));
    assert_eq!(Len.evaluate(&[QueryValue::List(vec![QueryValue::Int(1), QueryValue::Null])]), Ok(QueryValue::Int(2)));
    assert_eq!(
        Len.evaluate(&[QueryValue::Object(vec![("a".to_string(), QueryValue::Int(1))])]),
        Ok(QueryValue::Int(1))
    );
    assert_eq!(Len.evaluate(&[QueryValue::Null]), Ok(QueryValue::Null));
    assert_eq!(
        Len.evaluate(&[QueryValue::Int(3)]),
        Err(ExprError::TypeMismatch { op: "len", left: "int", right: "string|list|object" })
    );
    assert_eq!(Len.name(), "len");
    assert_eq!(Len.signature().arity_label(), "1..1");
}

#[test]
fn concat_joins_strings_and_skips_null() {
    assert_eq!(Concat.evaluate(&[s("ab"), QueryValue::Null, s("cd")]), Ok(s("abcd")));
    assert_eq!(Concat.evaluate(&[]), Ok(s("")));
    assert_eq!(
        Concat.evaluate(&[s("a"), QueryValue::Bool(true), QueryValue::Int(1)]),
        Err(ExprError::TypeMismatch { op: "concat", left: "bool", right: "string" })
    );
    assert_eq!(Concat.signature().max_args(), None);
}

#[test]
fn abs_handles_ints_floats_and_overflow() {
    assert_eq!(Abs.evaluate(&[QueryValue::Int(-7)]), Ok(QueryValue::Int(7)));
    assert_eq!(Abs.evaluate(&[QueryValue::Int(7)]), Ok(QueryValue::Int(7)));
    assert_eq!(Abs.evaluate(&[QueryValue::Int(i64::MIN)]), Err(ExprError::ArithmeticOverflow));
    let minus = QueryValue::Float((-2.5f64).to_bits());
    assert_eq!(Abs.evaluate(&[minus]), Ok(QueryValue::Float(2.5f64.to_bits())));
    assert_eq!(Abs.evaluate(&[QueryValue::Null]), Ok(QueryValue::Null));
    assert_eq!(
        Abs.evaluate(&[s("x")]),
        Err(ExprError::TypeMismatch { op: "abs", left: "string", right: "number" })
    );
}

#[test]
fn count_accumulator_ignores_null_and_merges() {
    let mut acc = Count.create_accumulator();
    acc.update(&QueryValue::Int(1)).unwrap();
    acc.update(&QueryValue::Null).unwrap();
    acc.update(&s("x")).unwrap();
    assert_eq!(acc.finalize(), Ok(QueryValue::Int(2)));
    let mut other = Count.create_accumulator();
    other.update(&QueryValue::Bool(false)).unwrap();
    acc.merge(other).unwrap();
    assert_eq!(acc.finalize(), Ok(QueryValue::Int(3)));
    let copy = acc.clone_box();
    acc.reset();
    assert_eq!(acc.finalize(), Ok(QueryValue::Int(0)));
    assert_eq!(copy.finalize(), Ok(QueryValue::Int(3)));
}

#[test]
fn aggregate_names_and_signatures() {
    assert_eq!(Count.name(), "count");
    assert_eq!(MathSum.name(), "math::sum");
    assert_eq!(MathMean.name(), "math::mean");
    assert_eq!(MathMin.name(), "math::min");
    assert_eq!(MathMax.name(), "math::max");
    assert_eq!(MathMean.signature().result_kind(), "float");
    assert_eq!(MathMin.signature().result_kind(), "any");
    assert_eq!(MathSum.signature().min_args(), 1);
}

#[test]
fn expr_errors_render_messages() {
    assert_eq!(
        ExprError::TypeMismatch { op: "add", left: "int", right: "string" }.to_string(),
        "type mismatch for add: int vs string"
    );
    assert_eq!(ExprError::UnaryTypeMismatch { op: "-", operand: "bool" }.to_string(), "type mismatch for unary -: bool");
    assert_eq!(ExprError::DivisionByZero.to_string(), "division by zero");
    assert_eq!(ExprError::ArithmeticOverflow.to_string(), "arithmetic overflow");
    assert_eq!(ExprError::UnknownFunction("foo".to_string()).to_string(), "unknown function \"foo\"");
}

fn record() -> QueryValue {
    QueryValue::Object(vec![
        ("name".to_string(), s("ada")),
        (
            "tags".to_string(),
            QueryValue::List(vec![s("x"), QueryValue::Object(vec![("k".to_string(), QueryValue::Int(9))])]),
        ),
    ])
}

#[test]
fn field_paths_walk_objects_and_lists() {
    let path = FieldPath {
        segments: vec![FieldSegment::Field("tags".to_string()), FieldSegment::Index(1), FieldSegment::Field("k".to_string())],
    };
    assert_eq!(walk(&record(), &path.segments), Some(QueryValue::Int(9)));
    assert_eq!(FieldExpr::new(path.clone()).evaluate(&record()), Ok(QueryValue::Int(9)));
    assert_eq!(FieldExpr::new(path).describe(), "tags.1.k");
    let missing = FieldPath { segments: vec![FieldSegment::Field("tags".to_string()), FieldSegment::Index(5)] };
    assert_eq!(FieldExpr::new(missing).evaluate(&record()), Ok(QueryValue::Null));
    assert_eq!(FieldExpr::new(FieldPath::field("name")).evaluate(&record()), Ok(s("ada")));
    assert_eq!(copy_value(&record()), record());
    assert_eq!(value_kind(&QueryValue::EntityId(EntityId::new(1))), "entity_id");
    assert_eq!(s("q").as_str(), Some("q"));
}

#[test]
fn string_functions_map_their_argument() {
    assert_eq!(Lower.evaluate(&[s("ÄbC")]), Ok(s("äbc")));
    assert_eq!(Upper.evaluate(&[s("straße")]), Ok(s("STRASSE")));
    assert_eq!(Trim.evaluate(&[s("\u{3000} a b\t\n")]), Ok(s("a b")));
    assert_eq!(Trim.evaluate(&[s(" \u{85} ")]), Ok(s("")));
    assert_eq!(Lower.evaluate(&[QueryValue::Null]), Ok(s("")));
    assert_eq!(
        Upper.evaluate(&[QueryValue::Int(1)]),
        Err(ExprError::TypeMismatch { op: "upper", left: "int", right: "string" })
    );
    assert_eq!(Trim.name(), "trim");
    assert_eq!(Lower.signature().arity_label(), Upper.signature().arity_label());
}

#[test]
fn extremum_accumulators_keep_the_best_comparable_value() {
    let mut min = MathMin.create_accumulator();
    assert_eq!(min.update(&QueryValue::Int(5)), Ok(()));
    assert_eq!(min.update(&QueryValue::Null), Ok(()));
    assert_eq!(min.update(&QueryValue::Float(2.5f64.to_bits())), Ok(()));
    assert_eq!(min.update(&QueryValue::Int(3)), Ok(()));
    assert_eq!(min.finalize(), Ok(QueryValue::Float(2.5f64.to_bits())));
    assert_eq!(
        min.update(&s("x")),
        Err(ExprError::TypeMismatch { op: "compare", left: "float", right: "?" })
    );
    let mut max = MathMax.create_accumulator();
    assert_eq!(max.finalize(), Ok(QueryValue::Null));
    assert_eq!(max.update(&s("9")), Ok(()));
    assert_eq!(max.update(&s("10")), Ok(()));
    assert_eq!(max.finalize(), Ok(s("10")));
    assert_eq!(max.update(&s("b")), Ok(()));
    assert_eq!(max.finalize(), Ok(s("b")));
    let mut other = MathMax.create_accumulator();
    other.update(&s("c")).unwrap();
    max.merge(other).unwrap();
    assert_eq!(max.finalize(), Ok(s("c")));
    max.reset();
    assert_eq!(max.finalize(), Ok(QueryValue::Null));
    assert_eq!(
        max.update(&QueryValue::Bool(true)),
        Ok(())
    );
    assert_eq!(
        max.update(&QueryValue::Bool(false)),
        Err(ExprError::TypeMismatch { op: "compare", left: "bool", right: "?" })
    );
}

#[test]
fn scalar_comparison_orders_numbers_and_strings() {
    assert_eq!(value_cmp(&QueryValue::Int(2), &QueryValue::Float(2.0f64.to_bits())), Ok(Ordering::Equal));
    assert_eq!(value_cmp(&QueryValue::Int(-3), &QueryValue::Int(2)), Ok(Ordering::Less));
    assert_eq!(value_cmp(&s("10"), &s("9")), Ok(Ordering::Greater));
    assert_eq!(value_cmp(&s("10"), &s("9a")), Ok(Ordering::Less));
    assert_eq!(value_cmp(&QueryValue::Enum("b".into()), &s("a")), Ok(Ordering::Greater));
    assert_eq!(value_cmp(&QueryValue::Float(f64::NAN.to_bits()), &QueryValue::Int(1)), Ok(Ordering::Equal));
    assert_eq!(
        value_cmp(&QueryValue::Int(1), &s("1")),
        Err(ExprError::TypeMismatch { op: "compare", left: "int", right: "?" })
    );
    assert_eq!(parse_i64("-9223372036854775808"), Some(i64::MIN));
    assert_eq!(parse_i64("+12"), Some(12));
    assert_eq!(parse_i64("-+1"), None);
    assert_eq!(parse_i64("9223372036854775808"), None);
}

#[test]
fn built_signature_arity_counts_builder_calls() {
    let s = vardadb::query_planner::function::signature::Signature::new()
        .arg("a", "any")
        .optional("b", "any")
        .returning("string")
        .arg("c", "any")
        .optional("d", "any");
    assert_eq!(s.min_args(), 2);
    assert_eq!(s.max_args(), Some(4));
    let v = s.variadic("any").returning("number");
    assert_eq!(v.min_args(), 2);
    assert_eq!(v.max_args(), None);
}

#[test]
fn entity_raw_parses_back_to_its_uid() {
    for uid in [0u64, 7, 10, 12345, u64::MAX] {
        let id = vardadb::query_planner::ir::EntityId::new(uid);
        assert_eq!(id.raw().parse::<u64>(), Ok(uid));
    }
}
