//! Builtin aggregate functions, registered under the names `count`,
//! `math::sum`, `math::mean`, `math::min` and `math::max`.
//!
//! Null arguments are ignored by every aggregate (SQL-style), unlike scalar
//! expressions where Null propagates. The `count`, `math::min` and
//! `math::max` accumulators live here; those of `math::sum` and
//! `math::mean` compute on doubles and are kept by the embedding
//! application.
use vstd::prelude::*;
use crate::query_planner::ir::{QueryValue, ValueView};
use crate::query_planner::physical_expr::compare::{
    lemma_value_order_antisymmetric, lemma_value_order_reflexive, string_like, value_cmp, value_order,
};
use crate::query_planner::operators::sort::is_number;
use crate::query_planner::physical_expr::{copy_value, ExprError};
use super::builtins::{is_mismatch, unary_signature};
use super::signature::Signature;

verus! {

/// `count()`: counts non-Null arguments; row counts feed it a constant.
#[derive(Debug)]
pub struct Count;

impl Count {
    pub fn name(&self) -> (s: &'static str)
        ensures
            s@ == "count"@,
    {
        "count"
    }

    pub fn signature(&self) -> (sig: Signature)
        ensures
            unary_signature("value"@, "any"@, "int"@, sig),
    {
        Signature::new().arg("value", "any").returning("int")
    }

    /// A fresh accumulator at zero.
    pub fn create_accumulator(&self) -> (acc: CountAcc)
        ensures
            acc.count() == 0,
    {
        CountAcc { n: 0 }
    }
}

/// Streaming state of `count()` for one group.
#[derive(Debug)]
pub struct CountAcc {
    n: i64,
}

impl CountAcc {
    /// Non-Null values seen so far.
    pub closed spec fn count(&self) -> int {
        self.n as int
    }

    pub closed spec fn well_formed(&self) -> bool {
        self.n >= 0
    }

    /// Feeds one evaluated argument; Null is ignored.
    pub fn update(&mut self, value: &QueryValue) -> (r: Result<(), ExprError>)
        requires
            old(self).count() < i64::MAX,
        ensures
            r is Ok,
            final(self).count() == if value is Null { old(self).count() } else { old(self).count() + 1 },
    {
        match value {
            QueryValue::Null => {},
            _ => {
                self.n = self.n + 1;
            },
        }
        Ok(())
    }

    /// Adds the count of another accumulator of this function.
    pub fn merge(&mut self, other: CountAcc) -> (r: Result<(), ExprError>)
        requires
            i64::MIN <= old(self).count() + other.count() <= i64::MAX,
        ensures
            r is Ok,
            final(self).count() == old(self).count() + other.count(),
    {
        self.n = self.n + other.n;
        Ok(())
    }

    /// The count so far, as an int.
    pub fn finalize(&self) -> (r: Result<QueryValue, ExprError>)
        ensures
            r matches Ok(QueryValue::Int(n)) && n == self.count(),
    {
        Ok(QueryValue::Int(self.n))
    }

    /// Back to zero.
    pub fn reset(&mut self)
        ensures
            final(self).count() == 0,
    {
        self.n = 0;
    }

    /// A copy with the same count.
    pub fn clone_box(&self) -> (r: CountAcc)
        ensures
            r.count() == self.count(),
    {
        CountAcc { n: self.n }
    }
}

/// `math::sum()`: sum of non-Null numbers; Null when no values were seen.
#[derive(Debug)]
pub struct MathSum;

impl MathSum {
    pub fn name(&self) -> (s: &'static str)
        ensures
            s@ == "math::sum"@,
    {
        "math::sum"
    }

    pub fn signature(&self) -> (sig: Signature)
        ensures
            unary_signature("number"@, "number"@, "number"@, sig),
    {
        Signature::new().arg("number", "number").returning("number")
    }
}

/// `math::mean()`: arithmetic mean of non-Null numbers as a float; Null when
/// no values were seen.
#[derive(Debug)]
pub struct MathMean;

impl MathMean {
    pub fn name(&self) -> (s: &'static str)
        ensures
            s@ == "math::mean"@,
    {
        "math::mean"
    }

    pub fn signature(&self) -> (sig: Signature)
        ensures
            unary_signature("number"@, "number"@, "float"@, sig),
    {
        Signature::new().arg("number", "number").returning("float")
    }
}

/// `math::min()`: smallest non-Null argument.
#[derive(Debug)]
pub struct MathMin;

impl MathMin {
    pub fn name(&self) -> (s: &'static str)
        ensures
            s@ == "math::min"@,
    {
        "math::min"
    }

    pub fn signature(&self) -> (sig: Signature)
        ensures
            unary_signature("value"@, "any"@, "any"@, sig),
    {
        Signature::new().arg("value", "any").returning("any")
    }

    /// A fresh accumulator keeping the smallest value.
    pub fn create_accumulator(&self) -> (acc: ExtremumAcc)
        ensures
            acc.op@ == "math::min"@,
            acc.keep_min,
            acc.current is None,
    {
        extremum_acc("math::min", true)
    }
}

/// `math::max()`: largest non-Null argument.
#[derive(Debug)]
pub struct MathMax;

impl MathMax {
    pub fn name(&self) -> (s: &'static str)
        ensures
            s@ == "math::max"@,
    {
        "math::max"
    }

    pub fn signature(&self) -> (sig: Signature)
        ensures
            unary_signature("value"@, "any"@, "any"@, sig),
    {
        Signature::new().arg("value", "any").returning("any")
    }
}

impl MathMax {
    /// A fresh accumulator keeping the largest value.
    pub fn create_accumulator(&self) -> (acc: ExtremumAcc)
        ensures
            acc.op@ == "math::max"@,
            !acc.keep_min,
            acc.current is None,
    {
        extremum_acc("math::max", false)
    }
}

/// Streaming state of `math::min()` (`keep_min`) or `math::max()`: the
/// extreme non-Null value seen so far.
#[derive(Debug)]
pub struct ExtremumAcc {
    pub op: &'static str,
    pub keep_min: bool,
    pub current: Option<QueryValue>,
}

fn extremum_acc(op: &'static str, keep_min: bool) -> (acc: ExtremumAcc)
    ensures
        acc.op == op,
        acc.keep_min == keep_min,
        acc.current is None,
{
    ExtremumAcc { op, keep_min, current: None }
}

/// Whether `incoming` replaces `current`: it orders strictly before it
/// when keeping the minimum, strictly after it otherwise.
pub open spec fn replaces(keep_min: bool, s: int) -> bool {
    if keep_min { s < 0 } else { s > 0 }
}

/// The extreme value after feeding `v` to one holding `best`: Null changes
/// nothing; the first value is kept; a later one replaces the kept value
/// when it is strictly better. An incomparable pair fails (see
/// [`value_order`]).
pub open spec fn extremum_after(keep_min: bool, best: Option<QueryValue>, v: QueryValue) -> Option<Option<QueryValue>> {
    if v is Null {
        Some(best)
    } else {
        match best {
            None => Some(Some(v)),
            Some(c) => match value_order(v@, c@) {
                Ok(s) => if replaces(keep_min, s) { Some(Some(v)) } else { Some(best) },
                Err(_) => None,
            },
        }
    }
}

impl ExtremumAcc {
    fn better(&self, incoming: &QueryValue, current: &QueryValue) -> (r: Result<bool, ExprError>)
        ensures
            match value_order(incoming@, current@) {
                Ok(s) => r == Ok::<bool, ExprError>(replaces(self.keep_min, s)),
                Err(left_side) => r matches Err(e) && is_mismatch(e, "compare"@, if left_side { *incoming } else { *current }, "?"@),
            },
    {
        match value_cmp(incoming, current) {
            Ok(ord) => Ok(if self.keep_min {
                match ord {
                    std::cmp::Ordering::Less => true,
                    _ => false,
                }
            } else {
                match ord {
                    std::cmp::Ordering::Greater => true,
                    _ => false,
                }
            }),
            Err(e) => Err(e),
        }
    }

    /// Feeds one evaluated argument (see [`extremum_after`]); an
    /// incomparable value fails and leaves the kept value as it was.
    pub fn update(&mut self, value: &QueryValue) -> (r: Result<(), ExprError>)
        ensures
            final(self).op == old(self).op,
            final(self).keep_min == old(self).keep_min,
            match extremum_after(old(self).keep_min, old(self).current, *value) {
                Some(best) => r is Ok && opt_view(final(self).current) == opt_view(best),
                None => r is Err && final(self).current == old(self).current,
            },
    {
        match value {
            QueryValue::Null => return Ok(()),
            _ => {},
        }
        let replace = match &self.current {
            None => true,
            Some(current) => match self.better(value, current) {
                Ok(b) => b,
                Err(e) => return Err(e),
            },
        };
        if replace {
            self.current = Some(copy_value(value));
        }
        Ok(())
    }

    /// Feeds the value another accumulator kept, if any.
    pub fn merge(&mut self, other: ExtremumAcc) -> (r: Result<(), ExprError>)
        ensures
            final(self).op == old(self).op,
            final(self).keep_min == old(self).keep_min,
            match other.current {
                Some(v) => match extremum_after(old(self).keep_min, old(self).current, v) {
                    Some(best) => r is Ok && opt_view(final(self).current) == opt_view(best),
                    None => r is Err && final(self).current == old(self).current,
                },
                None => r is Ok && final(self).current == old(self).current,
            },
    {
        match &other.current {
            Some(v) => self.update(v),
            None => Ok(()),
        }
    }

    /// The kept value, or Null when none was seen.
    pub fn finalize(&self) -> (r: Result<QueryValue, ExprError>)
        ensures
            r matches Ok(v) && v@ == match self.current {
                Some(c) => c@,
                None => ValueView::Null,
            },
    {
        match &self.current {
            Some(v) => Ok(copy_value(v)),
            None => Ok(QueryValue::Null),
        }
    }

    /// Forgets the kept value.
    pub fn reset(&mut self)
        ensures
            final(self).op == old(self).op,
            final(self).keep_min == old(self).keep_min,
            final(self).current is None,
    {
        self.current = None;
    }

    /// A copy keeping the same value.
    pub fn clone_box(&self) -> (r: ExtremumAcc)
        ensures
            r.op == self.op,
            r.keep_min == self.keep_min,
            opt_view(r.current) == opt_view(self.current),
    {
        let current = match &self.current {
            Some(v) => Some(copy_value(v)),
            None => None,
        };
        ExtremumAcc { op: self.op, keep_min: self.keep_min, current }
    }
}

/// The content of an optional value.
pub open spec fn opt_view(v: Option<QueryValue>) -> Option<ValueView> {
    match v {
        Some(x) => Some(x@),
        None => None,
    }
}

/// Feeding a number or a string never leaves a kept value that it beats:
/// `math::min` keeps a value ordering no later than it, `math::max` one
/// ordering no earlier.
pub proof fn lemma_extremum_keeps_best(keep_min: bool, best: Option<QueryValue>, v: QueryValue)
    requires
        is_number(v@) || string_like(v@) is Some,
        extremum_after(keep_min, best, v) matches Some(Some(_)),
    ensures
        value_order(extremum_after(keep_min, best, v)->Some_0->Some_0@, v@) matches Ok(s)
            && (if keep_min { s <= 0 } else { s >= 0 }),
{
    lemma_value_order_reflexive(v@);
    if let Some(c) = best {
        lemma_value_order_antisymmetric(v@, c@);
    }
}

} // verus!
