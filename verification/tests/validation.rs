use vardadb::engine::schema::{validate_input, RangeBound, ValidationRule};
use vardadb::query_planner::ir::QueryValue;

fn bound(v: f64) -> RangeBound {
    RangeBound { bits: v.to_bits(), text: format!("{}", v) }
}

fn fields(entries: Vec<(&str, QueryValue)>) -> Vec<(String, QueryValue)> {
    entries.into_iter().map(|(k, v)| (k.to_string(), v)).collect()
}

fn rules(entries: Vec<(&str, Vec<ValidationRule>)>) -> Vec<(String, Vec<ValidationRule>)> {
    entries.into_iter().map(|(k, v)| (k.to_string(), v)).collect()
}

#[test]
fn regex_rules_check_strings() {
    let r = rules(vec![("name", vec![ValidationRule::Regex("^[a-z]+$".into())])]);
    assert_eq!(validate_input(&fields(vec![("name", QueryValue::String("abc".into()))]), &r), Ok(()));
    assert_eq!(
        validate_input(&fields(vec![("name", QueryValue::String("ab1".into()))]), &r),
        Err("Field 'name' must match pattern '^[a-z]+$'".to_string())
    );
    assert_eq!(validate_input(&fields(vec![("name", QueryValue::Int(3))]), &r), Ok(()));
    let broken = rules(vec![("name", vec![ValidationRule::Regex("(".into())])]);
    assert_eq!(
        validate_input(&fields(vec![("name", QueryValue::String("x".into()))]), &broken),
        Err("Invalid regex pattern on server for field name".to_string())
    );
}

#[test]
fn length_rules_count_bytes() {
    let r = rules(vec![("name", vec![ValidationRule::Length { min: Some(3), max: Some(5) }])]);
    assert_eq!(
        validate_input(&fields(vec![("name", QueryValue::String("ab".into()))]), &r),
        Err("Field 'name' length must be at least 3".to_string())
    );
    assert_eq!(
        validate_input(&fields(vec![("name", QueryValue::String("héllo".into()))]), &r),
        Err("Field 'name' length must be at most 5".to_string())
    );
    assert_eq!(validate_input(&fields(vec![("name", QueryValue::String("hello".into()))]), &r), Ok(()));
}

#[test]
fn range_rules_compare_numbers_as_doubles() {
    let r = rules(vec![("age", vec![ValidationRule::Range { min: Some(bound(1.5)), max: Some(bound(10.0)) }])]);
    assert_eq!(
        validate_input(&fields(vec![("age", QueryValue::Int(1))]), &r),
        Err("Field 'age' must be at least 1.5".to_string())
    );
    assert_eq!(
        validate_input(&fields(vec![("age", QueryValue::Float(10.5f64.to_bits()))]), &r),
        Err("Field 'age' must be at most 10".to_string())
    );
    assert_eq!(validate_input(&fields(vec![("age", QueryValue::Int(10))]), &r), Ok(()));
    assert_eq!(validate_input(&fields(vec![("age", QueryValue::String("0".into()))]), &r), Ok(()));
}

#[test]
fn absent_and_null_fields_pass_and_the_first_broken_rule_wins() {
    let r = rules(vec![
        ("age", vec![ValidationRule::Range { min: Some(bound(0.0)), max: None }]),
        ("name", vec![ValidationRule::Length { min: Some(1), max: None }, ValidationRule::Regex("^x".into())]),
    ]);
    assert_eq!(validate_input(&vec![], &r), Ok(()));
    assert_eq!(validate_input(&fields(vec![("age", QueryValue::Null), ("name", QueryValue::Null)]), &r), Ok(()));
    assert_eq!(
        validate_input(&fields(vec![("age", QueryValue::Int(-1)), ("name", QueryValue::String(String::new()))]), &r),
        Err("Field 'age' must be at least 0".to_string())
    );
    assert_eq!(
        validate_input(&fields(vec![("name", QueryValue::String(String::new()))]), &r),
        Err("Field 'name' length must be at least 1".to_string())
    );
    assert_eq!(
        validate_input(&fields(vec![("name", QueryValue::String("ya".into())), ("name", QueryValue::String("xa".into()))]), &r),
        Ok(())
    );
}
