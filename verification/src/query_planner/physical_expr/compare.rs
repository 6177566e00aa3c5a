//! Ordering of scalar values: numbers by double value, strings as
//! integers when both read as one, else lexically.
use std::cmp::Ordering;
use vstd::prelude::*;
use crate::query_planner::ir::{QueryValue, ValueView};
use crate::query_planner::lowering::{lemma_text_lt_asym, lemma_text_lt_irreflexive, lemma_text_lt_total, text_less, text_lt};
use crate::query_planner::operators::filter::{parse_u64, parsed_u64};
use crate::query_planner::operators::sort::{is_number, is_number_exec, number_key, number_key_exec, sign_of, sign_ordering};
use crate::query_planner::function::builtins::is_mismatch;
use crate::render::same_text;
use super::{value_kind, ExprError};

verus! {

/// `s` read as an `i64` the way `str::parse::<i64>` reads it: an optional
/// sign, then one or more ASCII digits whose value fits.
pub open spec fn parsed_i64(s: Seq<char>) -> Option<i64> {
    if s.len() > 0 && s[0] == '-' {
        let rest = s.drop_first();
        if rest.len() > 0 && rest[0] == '+' {
            None
        } else {
            match parsed_u64(rest) {
                Some(v) => if v <= 0x8000_0000_0000_0000 { Some((-(v as int)) as i64) } else { None },
                None => None,
            }
        }
    } else {
        match parsed_u64(s) {
            Some(v) => if v <= i64::MAX { Some(v as i64) } else { None },
            None => None,
        }
    }
}

/// Reads `s` as an `i64` (see [`parsed_i64`]).
pub fn parse_i64(s: &str) -> (r: Option<i64>)
    ensures
        r == parsed_i64(s@),
{
    let n = s.unicode_len();
    if n > 0 && s.get_char(0) == '-' {
        let rest = s.substring_char(1, n);
        proof {
            assert(rest@ =~= s@.drop_first());
        }
        if n > 1 && s.get_char(1) == '+' {
            return None;
        }
        match parse_u64(rest) {
            Some(v) => if v == 0x8000_0000_0000_0000 {
                Some(i64::MIN)
            } else if v < 0x8000_0000_0000_0000 {
                Some(-(v as i64))
            } else {
                None
            },
            None => None,
        }
    } else {
        match parse_u64(s) {
            Some(v) => if v <= 0x7FFF_FFFF_FFFF_FFFF { Some(v as i64) } else { None },
            None => None,
        }
    }
}

/// The text a string or enum compares by.
pub open spec fn string_like(v: ValueView) -> Option<Seq<char>> {
    match v {
        ValueView::String(s) => Some(s),
        ValueView::Enum(s) => Some(s),
        _ => None,
    }
}

/// How `l` compares to `r` (`-1`, `0`, `1`): two numbers by double value,
/// a NaN comparing equal to everything; two strings (or enums) as
/// integers when both read as one, else lexically. Otherwise the error
/// names the offending side: `true` for the left one.
pub open spec fn value_order(l: ValueView, r: ValueView) -> Result<int, bool> {
    if is_number(l) && is_number(r) {
        match (number_key(l), number_key(r)) {
            (Some(a), Some(b)) => Ok(sign_of(a, b)),
            _ => Ok(0),
        }
    } else {
        match (string_like(l), string_like(r)) {
            (Some(ls), Some(rs)) => match (parsed_i64(ls), parsed_i64(rs)) {
                (Some(a), Some(b)) => Ok(sign_of(a as int, b as int)),
                _ => Ok(if text_lt(ls, rs) { -1 } else if ls == rs { 0 } else { 1 }),
            },
            (None, _) => Err(true),
            (_, None) => Err(false),
        }
    }
}

fn string_like_exec(v: &QueryValue) -> (r: Option<&String>)
    ensures
        match string_like(v@) {
            Some(s) => r matches Some(x) && x@ == s,
            None => r is None,
        },
{
    match v {
        QueryValue::String(s) => Some(s),
        QueryValue::Enum(s) => Some(s),
        _ => None,
    }
}

fn order_of(less: bool, equal: bool) -> (o: Ordering)
    ensures
        o == sign_ordering(if less { -1 } else if equal { 0 } else { 1 }),
{
    if less {
        Ordering::Less
    } else if equal {
        Ordering::Equal
    } else {
        Ordering::Greater
    }
}

/// Compares two scalar values (see [`value_order`]); values that are
/// neither numbers nor strings fail the comparison.
pub fn value_cmp(left: &QueryValue, right: &QueryValue) -> (r: Result<Ordering, ExprError>)
    ensures
        match value_order(left@, right@) {
            Ok(s) => r == Ok::<Ordering, ExprError>(sign_ordering(s)),
            Err(left_side) => r matches Err(e) && is_mismatch(e, "compare"@, if left_side { *left } else { *right }, "?"@),
        },
{
    if is_number_exec(left) && is_number_exec(right) {
        return match (number_key_exec(left), number_key_exec(right)) {
            (Some(a), Some(b)) => Ok(order_of(a < b, a == b)),
            _ => Ok(Ordering::Equal),
        };
    }
    match (string_like_exec(left), string_like_exec(right)) {
        (Some(ls), Some(rs)) => match (parse_i64(ls.as_str()), parse_i64(rs.as_str())) {
            (Some(a), Some(b)) => Ok(order_of(a < b, a == b)),
            _ => Ok(order_of(text_less(ls, rs), same_text(ls.as_str(), rs.as_str()))),
        },
        (None, _) => Err(ExprError::TypeMismatch { op: "compare", left: value_kind(left), right: "?" }),
        (_, None) => Err(ExprError::TypeMismatch { op: "compare", left: value_kind(right), right: "?" }),
    }
}

/// Swapping the operands of a comparison flips its outcome, and an
/// incomparable pair stays incomparable.
pub proof fn lemma_value_order_antisymmetric(a: ValueView, b: ValueView)
    ensures
        value_order(a, b) matches Ok(s) ==> value_order(b, a) == Ok::<int, bool>(-s),
        value_order(a, b) is Err ==> value_order(b, a) is Err,
{
    if let (Some(x), Some(y)) = (string_like(a), string_like(b)) {
        lemma_text_lt_asym(x, y);
        lemma_text_lt_asym(y, x);
        lemma_text_lt_total(x, y);
        lemma_text_lt_total(y, x);
    }
}

/// A number or a string compares equal to itself.
pub proof fn lemma_value_order_reflexive(a: ValueView)
    requires
        is_number(a) || string_like(a) is Some,
    ensures
        value_order(a, a) == Ok::<int, bool>(0),
{
    if let Some(x) = string_like(a) {
        lemma_text_lt_irreflexive(x);
    }
}

} // verus!
