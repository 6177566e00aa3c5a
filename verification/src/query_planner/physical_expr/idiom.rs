//! `Field` expressions: a path resolved against the evaluation row.
use vstd::prelude::*;
use crate::query_planner::ir::{path_text, FieldPath, QueryValue, ValueView};
use super::{walk, walk_from, ExprError};

verus! {

/// `Field` expression: resolve a path against the evaluation row. A missing
/// field (or intermediate segment) evaluates to Null.
#[derive(Debug, Clone)]
pub struct FieldExpr {
    pub path: FieldPath,
}

impl FieldExpr {
    pub fn new(path: FieldPath) -> (r: Self)
        ensures
            r.path == path,
    {
        FieldExpr { path }
    }

    /// The value at the path within `row`, Null when absent.
    pub fn evaluate(&self, row: &QueryValue) -> (r: Result<QueryValue, ExprError>)
        ensures
            r matches Ok(v) && v@ == match walk_from(row@, self.path.segments@) {
                Some(found) => found,
                None => ValueView::Null,
            },
    {
        match walk(row, &self.path.segments) {
            Some(v) => Ok(v),
            None => Ok(QueryValue::Null),
        }
    }

    /// The path as written.
    pub fn describe(&self) -> (s: String)
        ensures
            s@ == path_text(self.path.segments@),
    {
        self.path.to_string()
    }
}

} // verus!
