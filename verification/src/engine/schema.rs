//! Schema-level type classification and the validation of input fields
//! against the rules a schema attaches to them (`@regex`, `@length`,
//! `@range`).
use vstd::prelude::*;
use vstd::utf8::encode_utf8;
use crate::query_planner::ir::{QueryValue, ValueView};
use crate::query_planner::operators::sort::{double_key, is_nan_bits, number_key, number_key_exec, SIGN_BIT};
use crate::query_planner::value_text::{append_signed, signed_decimal};

verus! {

/// How a schema type is declared.
#[derive(Clone, PartialEq, Debug)]
pub enum TypeKind {
    Object,
    Interface,
    /// A union and its possible member types.
    Union(Vec<String>),
}

/// A bound of a numeric range: the double's IEEE-754 bits and its decimal
/// rendering, as messages show it.
#[derive(Clone, Debug)]
pub struct RangeBound {
    pub bits: u64,
    pub text: String,
}

/// A rule an input field's value must satisfy.
#[derive(Clone, Debug)]
pub enum ValidationRule {
    /// A string must match the pattern.
    Regex(String),
    /// A string's length in bytes (its UTF-8 encoding, as a `usize`) must lie
    /// within the bounds.
    Length { min: Option<i64>, max: Option<i64> },
    /// A number must lie within the bounds.
    Range { min: Option<RangeBound>, max: Option<RangeBound> },
}

/// Whether `pattern` matches somewhere in `text` under the `regex` crate's
/// syntax; `None` when the pattern does not compile.
pub uninterp spec fn regex_outcome(pattern: Seq<char>, text: Seq<char>) -> Option<bool>;

/// Compiles `pattern` (`regex::Regex::new`) and tests it on `text`
/// (`Regex::is_match`); only that the outcome is the named one is stated.
#[verifier::external_body]
fn regex_matches(pattern: &str, text: &str) -> (r: Option<bool>)
    ensures
        r == regex_outcome(pattern@, text@),
{
    match regex::Regex::new(pattern) {
        Ok(re) => Some(re.is_match(text)),
        Err(_) => None,
    }
}

/// The message of the first bound a number breaks, if any: below `min`,
/// or above `max`. A NaN breaks no bound.
pub open spec fn range_error(field: Seq<char>, min: Option<RangeBound>, max: Option<RangeBound>, v: ValueView) -> Option<Seq<char>> {
    match number_key(v) {
        Some(key) => if min matches Some(b) && !is_nan_bits(b.bits) && key < double_key(b.bits) {
            Some("Field '"@ + field + "' must be at least "@ + min->Some_0.text@)
        } else if max matches Some(b) && !is_nan_bits(b.bits) && key > double_key(b.bits) {
            Some("Field '"@ + field + "' must be at most "@ + max->Some_0.text@)
        } else {
            None
        },
        None => None,
    }
}

/// The message of a rule a field's value breaks, if it breaks it. Rules
/// on strings pass non-strings, and range rules pass non-numbers.
pub open spec fn rule_error(field: Seq<char>, rule: ValidationRule, v: ValueView) -> Option<Seq<char>> {
    match rule {
        ValidationRule::Regex(pattern) => match v {
            ValueView::String(s) => match regex_outcome(pattern@, s) {
                None => Some("Invalid regex pattern on server for field "@ + field),
                Some(true) => None,
                Some(false) => Some("Field '"@ + field + "' must match pattern '"@ + pattern@ + "'"@),
            },
            _ => None,
        },
        ValidationRule::Length { min, max } => match v {
            ValueView::String(s) => {
                let len = (encode_utf8(s).len() as usize) as int;
                if min matches Some(m) && len < m {
                    Some("Field '"@ + field + "' length must be at least "@ + signed_decimal(min->Some_0))
                } else if max matches Some(m) && len > m {
                    Some("Field '"@ + field + "' length must be at most "@ + signed_decimal(max->Some_0))
                } else {
                    None
                }
            },
            _ => None,
        },
        ValidationRule::Range { min, max } => range_error(field, min, max, v),
    }
}

/// The message of the first of `rules` the value breaks.
pub open spec fn rules_error(field: Seq<char>, rules: Seq<ValidationRule>, v: ValueView) -> Option<Seq<char>>
    decreases rules.len(),
{
    if rules.len() == 0 {
        None
    } else {
        match rules_error(field, rules.drop_last(), v) {
            Some(m) => Some(m),
            None => rule_error(field, rules.last(), v),
        }
    }
}

/// The value an input holds for `name`: its last entry of that name.
pub open spec fn input_value(fields: Seq<(String, QueryValue)>, name: Seq<char>) -> Option<ValueView>
    decreases fields.len(),
{
    if fields.len() == 0 {
        None
    } else if fields.last().0@ == name {
        Some(fields.last().1@)
    } else {
        input_value(fields.drop_last(), name)
    }
}

/// The message of the first broken rule, taking the fields' rules in
/// order; a field that is absent or null passes.
pub open spec fn input_error(fields: Seq<(String, QueryValue)>, rules: Seq<(String, Vec<ValidationRule>)>) -> Option<Seq<char>>
    decreases rules.len(),
{
    if rules.len() == 0 {
        None
    } else {
        match input_error(fields, rules.drop_last()) {
            Some(m) => Some(m),
            None => match input_value(fields, rules.last().0@) {
                Some(v) => if v is Null { None } else { rules_error(rules.last().0@, rules.last().1@, v) },
                None => None,
            },
        }
    }
}

fn find_input<'a>(fields: &'a Vec<(String, QueryValue)>, name: &str) -> (r: Option<&'a QueryValue>)
    ensures
        match input_value(fields@, name@) {
            Some(v) => r matches Some(x) && x@ == v,
            None => r is None,
        },
{
    let mut i = fields.len();
    proof {
        assert(fields@.take(fields@.len() as int) =~= fields@);
    }
    while i > 0
        invariant
            i <= fields@.len(),
            input_value(fields@, name@) == input_value(fields@.take(i as int), name@),
        decreases i,
    {
        proof {
            assert(fields@.take(i as int).drop_last() =~= fields@.take(i as int - 1));
        }
        if crate::render::same_text(fields[i - 1].0.as_str(), name) {
            return Some(&fields[i - 1].1);
        }
        i = i - 1;
    }
    None
}

fn is_nan_exec(bits: u64) -> (b: bool)
    ensures
        b == is_nan_bits(bits),
{
    bits % SIGN_BIT > 0x7FF0_0000_0000_0000
}

fn double_key_exec(bits: u64) -> (k: i128)
    ensures
        k as int == double_key(bits),
{
    if bits >= SIGN_BIT { -((bits - SIGN_BIT) as i128) } else { bits as i128 }
}

fn field_message(field: &str, middle: &str) -> (s: String)
    ensures
        s@ == "Field '"@ + field@ + middle@,
{
    let mut s = String::from_str("Field '");
    s.append(field);
    s.append(middle);
    s
}

fn check_length(field: &str, min: Option<i64>, max: Option<i64>, v: &QueryValue) -> (r: Option<String>)
    ensures
        match rule_error(field@, ValidationRule::Length { min, max }, v@) {
            Some(m) => r matches Some(s) && s@ == m,
            None => r is None,
        },
{
    match v {
        QueryValue::String(s) => {
            let len = s.as_str().len() as i128;
            match min {
                Some(lo) => if len < lo as i128 {
                    let mut m = field_message(field, "' length must be at least ");
                    append_signed(&mut m, lo);
                    return Some(m);
                },
                None => {},
            }
            match max {
                Some(hi) => if len > hi as i128 {
                    let mut m = field_message(field, "' length must be at most ");
                    append_signed(&mut m, hi);
                    return Some(m);
                },
                None => {},
            }
            None
        },
        _ => None,
    }
}

fn check_range(field: &str, min: &Option<RangeBound>, max: &Option<RangeBound>, v: &QueryValue) -> (r: Option<String>)
    ensures
        match range_error(field@, *min, *max, v@) {
            Some(m) => r matches Some(s) && s@ == m,
            None => r is None,
        },
{
    match number_key_exec(v) {
        Some(key) => {
            match min {
                Some(b) => if !is_nan_exec(b.bits) && key < double_key_exec(b.bits) {
                    let mut m = field_message(field, "' must be at least ");
                    m.append(b.text.as_str());
                    return Some(m);
                },
                None => {},
            }
            match max {
                Some(b) => if !is_nan_exec(b.bits) && key > double_key_exec(b.bits) {
                    let mut m = field_message(field, "' must be at most ");
                    m.append(b.text.as_str());
                    return Some(m);
                },
                None => {},
            }
            None
        },
        None => None,
    }
}

fn check_rule(field: &str, rule: &ValidationRule, v: &QueryValue) -> (r: Option<String>)
    ensures
        match rule_error(field@, *rule, v@) {
            Some(m) => r matches Some(s) && s@ == m,
            None => r is None,
        },
{
    match rule {
        ValidationRule::Regex(pattern) => match v {
            QueryValue::String(s) => match regex_matches(pattern.as_str(), s.as_str()) {
                None => {
                    let mut m = String::from_str("Invalid regex pattern on server for field ");
                    m.append(field);
                    Some(m)
                },
                Some(true) => None,
                Some(false) => {
                    let mut m = field_message(field, "' must match pattern '");
                    m.append(pattern.as_str());
                    m.append("'");
                    Some(m)
                },
            },
            _ => None,
        },
        ValidationRule::Length { min, max } => check_length(field, *min, *max, v),
        ValidationRule::Range { min, max } => check_range(field, min, max, v),
    }
}

/// Checks the input fields against their rules, taking the rules in
/// order: the first rule broken is the error, and a field that is absent
/// or null passes (see [`input_error`]).
pub fn validate_input(fields: &Vec<(String, QueryValue)>, rules: &Vec<(String, Vec<ValidationRule>)>) -> (r: Result<(), String>)
    ensures
        match input_error(fields@, rules@) {
            Some(m) => r matches Err(s) && s@ == m,
            None => r is Ok,
        },
{
    let mut i: usize = 0;
    while i < rules.len()
        invariant
            i <= rules@.len(),
            input_error(fields@, rules@.take(i as int)) is None,
        decreases rules@.len() - i,
    {
        proof {
            assert(rules@.take(i as int + 1).drop_last() =~= rules@.take(i as int));
        }
        let name = rules[i].0.as_str();
        match find_input(fields, name) {
            Some(v) => {
                let is_null = match v {
                    QueryValue::Null => true,
                    _ => false,
                };
                if !is_null {
                    let list = &rules[i].1;
                    let mut j: usize = 0;
                    while j < list.len()
                        invariant
                            j <= list@.len(),
                            i < rules@.len(),
                            name@ == rules@[i as int].0@,
                            list@ == rules@[i as int].1@,
                            input_value(fields@, name@) == Some(v@),
                            !(v@ is Null),
                            input_error(fields@, rules@.take(i as int)) is None,
                            rules@.take(i as int + 1).drop_last() == rules@.take(i as int),
                            rules_error(name@, list@.take(j as int), v@) is None,
                        decreases list@.len() - j,
                    {
                        proof {
                            assert(list@.take(j as int + 1).drop_last() =~= list@.take(j as int));
                        }
                        match check_rule(name, &list[j], v) {
                            Some(m) => {
                                proof {
                                    assert(rules_error(name@, list@.take(j as int + 1), v@) == Some(m@));
                                    lemma_rules_error_extends(name@, list@, j as int + 1, v@);
                                    assert(list@.take(list@.len() as int) =~= list@);
                                    assert(input_error(fields@, rules@.take(i as int + 1)) == Some(m@));
                                    lemma_input_error_extends(fields@, rules@, i as int + 1);
                                    assert(rules@.take(rules@.len() as int) =~= rules@);
                                }
                                return Err(m);
                            },
                            None => {},
                        }
                        j = j + 1;
                    }
                    proof {
                        assert(list@.take(list@.len() as int) =~= list@);
                    }
                }
            },
            None => {},
        }
        i = i + 1;
    }
    proof {
        assert(rules@.take(rules@.len() as int) =~= rules@);
    }
    Ok(())
}

/// A first error among a prefix of the rules stays the first error.
proof fn lemma_rules_error_extends(field: Seq<char>, rules: Seq<ValidationRule>, k: int, v: ValueView)
    requires
        0 <= k <= rules.len(),
        rules_error(field, rules.take(k), v) is Some,
    ensures
        rules_error(field, rules, v) == rules_error(field, rules.take(k), v),
    decreases rules.len() - k,
{
    if k < rules.len() {
        assert(rules.take(k + 1).drop_last() =~= rules.take(k));
        lemma_rules_error_extends(field, rules, k + 1, v);
    } else {
        assert(rules.take(k) =~= rules);
    }
}

proof fn lemma_input_error_extends(fields: Seq<(String, QueryValue)>, rules: Seq<(String, Vec<ValidationRule>)>, k: int)
    requires
        0 <= k <= rules.len(),
        input_error(fields, rules.take(k)) is Some,
    ensures
        input_error(fields, rules) == input_error(fields, rules.take(k)),
    decreases rules.len() - k,
{
    if k < rules.len() {
        assert(rules.take(k + 1).drop_last() =~= rules.take(k));
        lemma_input_error_extends(fields, rules, k + 1);
    } else {
        assert(rules.take(k) =~= rules);
    }
}

} // verus!
