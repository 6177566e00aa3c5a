//! Expression evaluation support: the error type, the kind names of values,
//! and field access into row values.
//!
//! Typing is strict: operand kinds that do not fit an operator raise an
//! [`ExprError`] rather than being coerced.
use vstd::prelude::*;
use crate::query_planner::ir::{
    fields_view, lemma_fields_view, lemma_list_view, list_view, FieldSegment, QueryValue, ValueView,
};

pub mod compare;
pub mod idiom;

pub use idiom::FieldExpr;

verus! {

/// Why an expression failed to evaluate.
#[derive(Debug, Clone, PartialEq, Eq)]
pub enum ExprError {
    /// Operand kinds are incompatible for this operator.
    TypeMismatch { op: &'static str, left: &'static str, right: &'static str },
    /// Unary operand kind is incompatible.
    UnaryTypeMismatch { op: &'static str, operand: &'static str },
    DivisionByZero,
    ArithmeticOverflow,
    /// The named scalar function is not registered.
    UnknownFunction(String),
    /// Subquery expressions are not compiled by this evaluator.
    UnsupportedSubquery,
}

/// `s` rendered as a Rust string literal (`format!("{:?}", s)`).
pub uninterp spec fn quoted(s: Seq<char>) -> Seq<char>;

/// `s` in double quotes with Rust's debug escapes (`<str as Debug>::fmt`);
/// only that the result is the named rendering of `s` is stated.
#[verifier::external_body]
pub(crate) fn debug_quote(s: &str) -> (r: String)
    ensures
        r@ == quoted(s@),
{
    format!("{:?}", s)
}

impl ExprError {
    /// Human-readable rendering of the error.
    pub open spec fn message(self) -> Seq<char> {
        match self {
            ExprError::TypeMismatch { op, left, right } =>
                "type mismatch for "@ + op@ + ": "@ + left@ + " vs "@ + right@,
            ExprError::UnaryTypeMismatch { op, operand } =>
                "type mismatch for unary "@ + op@ + ": "@ + operand@,
            ExprError::DivisionByZero => "division by zero"@,
            ExprError::ArithmeticOverflow => "arithmetic overflow"@,
            ExprError::UnknownFunction(name) => "unknown function "@ + quoted(name@),
            ExprError::UnsupportedSubquery => "subquery expressions require the Stage 3.4 bridge"@,
        }
    }

    pub fn to_string(&self) -> (s: String)
        ensures
            s@ == self.message(),
    {
        match self {
            ExprError::TypeMismatch { op, left, right } => {
                let mut s = String::from_str("type mismatch for ");
                s.append(op);
                s.append(": ");
                s.append(left);
                s.append(" vs ");
                s.append(right);
                s
            },
            ExprError::UnaryTypeMismatch { op, operand } => {
                let mut s = String::from_str("type mismatch for unary ");
                s.append(op);
                s.append(": ");
                s.append(operand);
                s
            },
            ExprError::DivisionByZero => String::from_str("division by zero"),
            ExprError::ArithmeticOverflow => String::from_str("arithmetic overflow"),
            ExprError::UnknownFunction(name) => {
                let mut s = String::from_str("unknown function ");
                let q = debug_quote(name.as_str());
                s.append(q.as_str());
                s
            },
            ExprError::UnsupportedSubquery => String::from_str("subquery expressions require the Stage 3.4 bridge"),
        }
    }
}

/// The kind name of a value.
pub open spec fn kind_name(v: QueryValue) -> Seq<char> {
    match v {
        QueryValue::Null => "null"@,
        QueryValue::Bool(_) => "bool"@,
        QueryValue::Int(_) => "int"@,
        QueryValue::Float(_) => "float"@,
        QueryValue::String(_) => "string"@,
        QueryValue::Enum(_) => "enum"@,
        QueryValue::List(_) => "list"@,
        QueryValue::Object(_) => "object"@,
        QueryValue::EntityId(_) => "entity_id"@,
    }
}

pub fn value_kind(v: &QueryValue) -> (s: &'static str)
    ensures
        s@ == kind_name(*v),
{
    match v {
        QueryValue::Null => "null",
        QueryValue::Bool(_) => "bool",
        QueryValue::Int(_) => "int",
        QueryValue::Float(_) => "float",
        QueryValue::String(_) => "string",
        QueryValue::Enum(_) => "enum",
        QueryValue::List(_) => "list",
        QueryValue::Object(_) => "object",
        QueryValue::EntityId(_) => "entity_id",
    }
}

/// A copy with the same contents as `v`.
pub fn copy_value(v: &QueryValue) -> (r: QueryValue)
    ensures
        r@ == v@,
    decreases v,
{
    match v {
        QueryValue::Null => QueryValue::Null,
        QueryValue::Bool(b) => QueryValue::Bool(*b),
        QueryValue::Int(i) => QueryValue::Int(*i),
        QueryValue::Float(f) => QueryValue::Float(*f),
        QueryValue::String(s) => QueryValue::String(s.clone()),
        QueryValue::Enum(s) => QueryValue::Enum(s.clone()),
        QueryValue::EntityId(e) => QueryValue::EntityId(e.duplicate()),
        QueryValue::List(items) => {
            let mut out: Vec<QueryValue> = Vec::new();
            let mut i: usize = 0;
            while i < items.len()
                invariant
                    *v == QueryValue::List(*items),
                    i <= items@.len(),
                    out@.len() == i,
                    forall|j: int| 0 <= j < i ==> (#[trigger] out@[j])@ == items@[j]@,
                decreases items@.len() - i,
            {
                proof {
                    assert(decreases_to!(*v => (*v)->List_0));
                    assert(decreases_to!(*items => items@));
                    assert(decreases_to!(items@ => items@[i as int]));
                    assert(decreases_to!(*v => items@[i as int]));
                }
                let item = copy_value(&items[i]);
                out.push(item);
                i = i + 1;
            }
            proof {
                lemma_list_view(out@);
                lemma_list_view(items@);
                assert(list_view(out@) =~= list_view(items@));
            }
            QueryValue::List(out)
        },
        QueryValue::Object(fields) => {
            let mut out: Vec<(String, QueryValue)> = Vec::new();
            let mut i: usize = 0;
            while i < fields.len()
                invariant
                    *v == QueryValue::Object(*fields),
                    i <= fields@.len(),
                    out@.len() == i,
                    forall|j: int| 0 <= j < i ==> (#[trigger] out@[j]).0@ == fields@[j].0@ && out@[j].1@ == fields@[j].1@,
                decreases fields@.len() - i,
            {
                proof {
                    assert(decreases_to!(*v => (*v)->Object_0));
                    assert(decreases_to!(*fields => fields@));
                    assert(decreases_to!(fields@ => fields@[i as int]));
                    assert(decreases_to!(fields@[i as int] => fields@[i as int].1));
                    assert(decreases_to!(*v => fields@[i as int].1));
                }
                let item = copy_value(&fields[i].1);
                out.push((fields[i].0.clone(), item));
                i = i + 1;
            }
            proof {
                lemma_fields_view(out@);
                lemma_fields_view(fields@);
                assert(fields_view(out@) =~= fields_view(fields@));
            }
            QueryValue::Object(out)
        },
    }
}

/// A copy of each field with the same name and contents.
pub fn copy_fields(fields: &Vec<(String, QueryValue)>) -> (r: Vec<(String, QueryValue)>)
    ensures
        fields_view(r@) == fields_view(fields@),
{
    let mut out: Vec<(String, QueryValue)> = Vec::new();
    let mut i: usize = 0;
    while i < fields.len()
        invariant
            i <= fields@.len(),
            out@.len() == i,
            forall|j: int| 0 <= j < i ==> (#[trigger] out@[j]).0@ == fields@[j].0@ && out@[j].1@ == fields@[j].1@,
        decreases fields@.len() - i,
    {
        let item = copy_value(&fields[i].1);
        out.push((fields[i].0.clone(), item));
        i = i + 1;
    }
    proof {
        lemma_fields_view(out@);
        lemma_fields_view(fields@);
        assert(fields_view(out@) =~= fields_view(fields@));
    }
    out
}

/// The value of the first field named `name`.
pub open spec fn field_value(fields: Seq<(Seq<char>, ValueView)>, name: Seq<char>) -> Option<ValueView>
    decreases fields.len(),
{
    if fields.len() == 0 {
        None
    } else if fields[0].0 == name {
        Some(fields[0].1)
    } else {
        field_value(fields.drop_first(), name)
    }
}

/// Follows `segs` through object fields and list indices; `None` when a
/// segment is absent or does not fit the value it is applied to.
pub open spec fn walk_from(value: ValueView, segs: Seq<FieldSegment>) -> Option<ValueView>
    decreases segs.len(),
{
    if segs.len() == 0 {
        Some(value)
    } else {
        match (value, segs[0]) {
            (ValueView::Object(fields), FieldSegment::Field(name)) => match field_value(fields, name@) {
                Some(v) => walk_from(v, segs.drop_first()),
                None => None,
            },
            (ValueView::List(items), FieldSegment::Index(i)) => if i < items.len() {
                walk_from(items[i as int], segs.drop_first())
            } else {
                None
            },
            _ => None,
        }
    }
}

/// Index of the first field named `name`.
pub(crate) fn find_field(fields: &Vec<(String, QueryValue)>, name: &String) -> (r: Option<usize>)
    ensures
        match r {
            Some(j) => j < fields@.len()
                && field_value(QueryValue::Object(*fields)@->Object_0, name@) == Some(fields@[j as int].1@),
            None => field_value(QueryValue::Object(*fields)@->Object_0, name@) is None,
        },
{
    let ghost fv = fields_view(fields@);
    proof {
        lemma_fields_view(fields@);
    }
    let mut j: usize = 0;
    proof {
        assert(fv.skip(0) =~= fv);
    }
    while j < fields.len()
        invariant
            fv == fields_view(fields@),
            fv.len() == fields@.len(),
            forall|i: int| 0 <= i < fields@.len() ==> #[trigger] fv[i] == (fields@[i].0@, fields@[i].1@),
            j <= fields@.len(),
            field_value(fv, name@) == field_value(fv.skip(j as int), name@),
        decreases fields@.len() - j,
    {
        proof {
            assert(fv.skip(j as int).drop_first() =~= fv.skip(j as int + 1));
            assert(fv.skip(j as int)[0] == fv[j as int]);
            assert(fv[j as int] == (fields@[j as int].0@, fields@[j as int].1@));
        }
        if fields[j].0 == *name {
            return Some(j);
        }
        j = j + 1;
    }
    proof {
        assert(fv.skip(j as int) =~= Seq::<(Seq<char>, ValueView)>::empty());
    }
    None
}

/// Walks `segs` from `value` through object fields and list indices.
pub fn walk(value: &QueryValue, segs: &Vec<FieldSegment>) -> (r: Option<QueryValue>)
    ensures
        match r {
            Some(x) => walk_from(value@, segs@) == Some(x@),
            None => walk_from(value@, segs@) is None,
        },
{
    let mut current: &QueryValue = value;
    let mut k: usize = 0;
    proof {
        assert(segs@.skip(0) =~= segs@);
    }
    while k < segs.len()
        invariant
            k <= segs@.len(),
            walk_from(value@, segs@) == walk_from(current@, segs@.skip(k as int)),
        decreases segs@.len() - k,
    {
        proof {
            assert(segs@.skip(k as int).drop_first() =~= segs@.skip(k as int + 1));
            assert(segs@.skip(k as int)[0] == segs@[k as int]);
        }
        let next: &QueryValue = match (current, &segs[k]) {
            (QueryValue::Object(fields), FieldSegment::Field(name)) => match find_field(fields, name) {
                Some(j) => &fields[j].1,
                None => return None,
            },
            (QueryValue::List(items), FieldSegment::Index(i)) => {
                proof {
                    lemma_list_view(items@);
                }
                if *i < items.len() {
                    &items[*i]
                } else {
                    return None;
                }
            },
            _ => {
                proof {
                    assert(current@ is Object ==> current is Object);
                    assert(current@ is List ==> current is List);
                }
                return None;
            },
        };
        current = next;
        k = k + 1;
    }
    proof {
        assert(segs@.skip(k as int) =~= Seq::<FieldSegment>::empty());
    }
    Some(copy_value(current))
}

} // verus!
