//! Lowering of client filter and sort arguments into the logical IR.
//!
//! A filter argument is an object mapping field names to conditions.
//! `and` / `or` take lists of nested filter objects and `not` one nested
//! object; any other key names a field. A field condition is either a
//! scalar (equality) or an object of operators (`eq`, `gt`, `between`, ...);
//! an object without any operator key filters the related entities reached
//! through that field.
//!
//! Values placed into predicates are put in canonical form: object fields
//! ordered by key (later duplicates replacing earlier ones), as a map holds
//! them.
use vstd::prelude::*;
use crate::query_planner::ir::{
    fields_view, lemma_fields_view, lemma_list_view, list_view, FieldPath, FieldSegment, FilterOp,
    FilterPredicate, FilterView, LogicalFilter, OrderKey, PredicateView, QueryValue, SegmentView,
    SortDirection, ValueView, filters_view, lemma_filters_view, path_view,
};
use crate::query_planner::ir::{
    AggregateFunction, AggregateSpec, CursorValue, EntityId, ExplainMode, LogicalQuery, QueryRoot,
};
use crate::query_planner::operators::filter::{parse_u64, parsed_u64};
use crate::query_planner::physical_expr::copy_value;
use crate::render::same_text;

verus! {

/// Strictly before in lexicographic order of characters (the order of
/// Rust string comparison).
pub open spec fn text_lt(a: Seq<char>, b: Seq<char>) -> bool
    decreases a.len(),
{
    if a.len() == 0 {
        b.len() > 0
    } else if b.len() == 0 {
        false
    } else if a[0] != b[0] {
        (a[0] as int) < (b[0] as int)
    } else {
        text_lt(a.drop_first(), b.drop_first())
    }
}

/// `fields` with `(key, v)` at its ascending key position, replacing the
/// entry already holding `key`.
pub open spec fn put_field(fields: Seq<(Seq<char>, ValueView)>, key: Seq<char>, v: ValueView) -> Seq<(Seq<char>, ValueView)>
    decreases fields.len(),
{
    if fields.len() == 0 {
        seq![(key, v)]
    } else if text_lt(key, fields[0].0) {
        seq![(key, v)] + fields
    } else if key == fields[0].0 {
        seq![(key, v)] + fields.drop_first()
    } else {
        seq![fields[0]] + put_field(fields.drop_first(), key, v)
    }
}

/// A value with every object's fields put in map form (see [`put_field`]).
pub open spec fn canonical_view(v: ValueView) -> ValueView
    decreases v, 1int,
{
    match v {
        ValueView::List(items) => ValueView::List(canonical_items(items)),
        ValueView::Object(fields) => ValueView::Object(canonical_fields(fields)),
        other => other,
    }
}

pub open spec fn canonical_items(items: Seq<ValueView>) -> Seq<ValueView>
    decreases items, 0int,
{
    if items.len() == 0 {
        Seq::empty()
    } else {
        canonical_items(items.drop_last()).push(canonical_view(items.last()))
    }
}

pub open spec fn canonical_fields(fields: Seq<(Seq<char>, ValueView)>) -> Seq<(Seq<char>, ValueView)>
    decreases fields, 0int,
{
    if fields.len() == 0 {
        Seq::empty()
    } else {
        put_field(canonical_fields(fields.drop_last()), fields.last().0, canonical_view(fields.last().1))
    }
}

/// Whether `a` sorts strictly before `b`.
pub(crate) fn text_less(a: &String, b: &String) -> (r: bool)
    ensures
        r == text_lt(a@, b@),
{
    let x = a.as_str();
    let y = b.as_str();
    let n = x.unicode_len();
    let m = y.unicode_len();
    let mut i: usize = 0;
    proof {
        assert(a@.skip(0) =~= a@);
        assert(b@.skip(0) =~= b@);
    }
    while i < n && i < m
        invariant
            n == a@.len(),
            m == b@.len(),
            i <= n,
            i <= m,
            x@ == a@,
            y@ == b@,
            text_lt(a@, b@) == text_lt(a@.skip(i as int), b@.skip(i as int)),
        decreases n - i,
    {
        let c = x.get_char(i);
        let d = y.get_char(i);
        proof {
            assert(a@.skip(i as int)[0] == c);
            assert(b@.skip(i as int)[0] == d);
        }
        if c != d {
            return (c as u32) < (d as u32);
        }
        proof {
            assert(a@.skip(i as int).drop_first() =~= a@.skip(i as int + 1));
            assert(b@.skip(i as int).drop_first() =~= b@.skip(i as int + 1));
        }
        i = i + 1;
    }
    proof {
        if i == n {
            assert(a@.skip(i as int).len() == 0);
        } else {
            assert(b@.skip(i as int).len() == 0);
        }
    }
    i == n && i < m
}

/// Places `(key, v)` at its ascending key position, replacing the entry
/// already holding `key`.
fn put_field_exec(fields: &mut Vec<(String, QueryValue)>, key: String, v: QueryValue)
    ensures
        fields_view(final(fields)@) == put_field(fields_view(old(fields)@), key@, v@),
{
    let ghost orig = fields_view(fields@);
    proof {
        lemma_fields_view(fields@);
        assert(orig.skip(0) =~= orig);
        assert(orig.take(0) + put_field(orig.skip(0), key@, v@) =~= put_field(orig, key@, v@));
    }
    let mut i: usize = 0;
    while i < fields.len() && text_less(&fields[i].0, &key)
        invariant
            i <= fields@.len(),
            orig == fields_view(fields@),
            orig.len() == fields@.len(),
            forall|j: int| 0 <= j < fields@.len() ==> #[trigger] orig[j] == (fields@[j].0@, fields@[j].1@),
            put_field(orig, key@, v@) == orig.take(i as int) + put_field(orig.skip(i as int), key@, v@),
        decreases fields@.len() - i,
    {
        proof {
            let rest = orig.skip(i as int);
            assert(rest[0] == orig[i as int]);
            assert(rest.drop_first() =~= orig.skip(i as int + 1));
            lemma_text_lt_asym(fields@[i as int].0@, key@);
            assert(orig.take(i as int) + (seq![rest[0]] + put_field(rest.drop_first(), key@, v@))
                =~= orig.take(i as int + 1) + put_field(orig.skip(i as int + 1), key@, v@));
        }
        i = i + 1;
    }
    let ghost before = fields@;
    if i < fields.len() && same_text(fields[i].0.as_str(), key.as_str()) {
        proof {
            let rest = orig.skip(i as int);
            assert(rest[0] == orig[i as int]);
            lemma_text_lt_irreflexive(key@);
            assert(rest.drop_first() =~= orig.skip(i as int + 1));
        }
        fields.set(i, (key, v));
        proof {
            lemma_fields_view(fields@);
            assert(fields_view(fields@) =~= orig.take(i as int) + (seq![(key@, v@)] + orig.skip(i as int + 1)));
        }
        return;
    }
    proof {
        if i < orig.len() {
            let rest = orig.skip(i as int);
            assert(rest[0] == orig[i as int]);
            lemma_text_lt_total(key@, fields@[i as int].0@);
        }
    }
    fields.insert(i, (key, v));
    proof {
        lemma_fields_view(fields@);
        if i < orig.len() {
            assert(fields_view(fields@) =~= orig.take(i as int) + (seq![(key@, v@)] + orig.skip(i as int)));
        } else {
            assert(fields_view(fields@) =~= orig.take(i as int) + seq![(key@, v@)]);
        }
    }
}

pub(crate) proof fn lemma_text_lt_irreflexive(a: Seq<char>)
    ensures
        !text_lt(a, a),
    decreases a.len(),
{
    if a.len() > 0 {
        lemma_text_lt_irreflexive(a.drop_first());
    }
}

pub(crate) proof fn lemma_text_lt_asym(a: Seq<char>, b: Seq<char>)
    ensures
        text_lt(a, b) ==> !text_lt(b, a) && a != b,
    decreases a.len(),
{
    if a.len() > 0 && b.len() > 0 && a[0] == b[0] {
        lemma_text_lt_asym(a.drop_first(), b.drop_first());
    }
    if text_lt(a, b) && a == b {
        lemma_text_lt_irreflexive(a);
    }
}

pub(crate) proof fn lemma_text_lt_total(a: Seq<char>, b: Seq<char>)
    ensures
        a != b && !text_lt(b, a) ==> text_lt(a, b),
    decreases a.len(),
{
    if a.len() > 0 && b.len() > 0 && a[0] == b[0] {
        lemma_text_lt_total(a.drop_first(), b.drop_first());
        if a.drop_first() == b.drop_first() {
            assert(a.drop_first().len() == b.drop_first().len());
            assert(a.len() == b.len());
            assert forall|i: int| 0 <= i < a.len() implies a[i] == b[i] by {
                if i > 0 {
                    assert(a[i] == a.drop_first()[i - 1]);
                    assert(b[i] == b.drop_first()[i - 1]);
                }
            }
            assert(a =~= b);
        }
    }
    if a.len() == 0 && b.len() == 0 {
        assert(a =~= b);
    }
}

proof fn lemma_text_lt_trans(a: Seq<char>, b: Seq<char>, c: Seq<char>)
    requires
        text_lt(a, b),
        text_lt(b, c),
    ensures
        text_lt(a, c),
    decreases a.len(),
{
    if a.len() > 0 && b.len() > 0 && c.len() > 0 && a[0] == b[0] && b[0] == c[0] {
        lemma_text_lt_trans(a.drop_first(), b.drop_first(), c.drop_first());
    }
}

/// Some field is named `k`.
pub open spec fn has_key(f: Seq<(Seq<char>, ValueView)>, k: Seq<char>) -> bool {
    exists|i: int| 0 <= i < f.len() && #[trigger] f[i].0 == k
}

/// Keys strictly ascending: each key once, in string order.
pub open spec fn keys_ascending(f: Seq<(Seq<char>, ValueView)>) -> bool {
    forall|i: int, j: int| 0 <= i < j < f.len() ==> text_lt(f[i].0, f[j].0)
}

proof fn lemma_put_field_keeps(f: Seq<(Seq<char>, ValueView)>, key: Seq<char>, v: ValueView)
    requires
        keys_ascending(f),
    ensures
        keys_ascending(put_field(f, key, v)),
        forall|k: Seq<char>| #[trigger] has_key(put_field(f, key, v), k) ==> (k == key || has_key(f, k)),
    decreases f.len(),
{
    let r = put_field(f, key, v);
    if f.len() == 0 {
    } else if text_lt(key, f[0].0) {
        assert forall|i: int, j: int| 0 <= i < j < r.len() implies text_lt(r[i].0, r[j].0) by {
            if i == 0 {
                if j > 1 {
                    lemma_text_lt_trans(key, f[0].0, f[j - 1].0);
                }
            } else {
                assert(r[i] == f[i - 1] && r[j] == f[j - 1]);
            }
        }
        assert forall|k: Seq<char>| #[trigger] has_key(r, k) implies (k == key || has_key(f, k)) by {
            let i = choose|i: int| 0 <= i < r.len() && #[trigger] r[i].0 == k;
            if i > 0 {
                assert(f[i - 1].0 == k);
            }
        }
    } else if key == f[0].0 {
        assert forall|i: int, j: int| 0 <= i < j < r.len() implies text_lt(r[i].0, r[j].0) by {
            assert(r[j] == f[j]);
            if i > 0 {
                assert(r[i] == f[i]);
            }
        }
        assert forall|k: Seq<char>| #[trigger] has_key(r, k) implies (k == key || has_key(f, k)) by {
            let i = choose|i: int| 0 <= i < r.len() && #[trigger] r[i].0 == k;
            if i > 0 {
                assert(f[i].0 == k);
            }
        }
    } else {
        let t = f.drop_first();
        assert forall|i: int, j: int| 0 <= i < j < t.len() implies text_lt(t[i].0, t[j].0) by {
            assert(t[i] == f[i + 1] && t[j] == f[j + 1]);
        }
        lemma_put_field_keeps(t, key, v);
        let pt = put_field(t, key, v);
        lemma_text_lt_total(key, f[0].0);
        assert forall|m: int| 0 <= m < pt.len() implies text_lt(f[0].0, #[trigger] pt[m].0) by {
            assert(has_key(pt, pt[m].0));
            if pt[m].0 != key {
                let i = choose|i: int| 0 <= i < t.len() && #[trigger] t[i].0 == pt[m].0;
                assert(f[i + 1] == t[i]);
            }
        }
        assert forall|i: int, j: int| 0 <= i < j < r.len() implies text_lt(r[i].0, r[j].0) by {
            assert(r[j] == pt[j - 1]);
            if i > 0 {
                assert(r[i] == pt[i - 1]);
            }
        }
        assert forall|k: Seq<char>| #[trigger] has_key(r, k) implies (k == key || has_key(f, k)) by {
            let i = choose|i: int| 0 <= i < r.len() && #[trigger] r[i].0 == k;
            if i == 0 {
                assert(f[0].0 == k);
            } else {
                assert(pt[i - 1].0 == k);
                assert(has_key(pt, k));
                if k != key {
                    let m = choose|m: int| 0 <= m < t.len() && #[trigger] t[m].0 == k;
                    assert(f[m + 1].0 == k);
                }
            }
        }
    }
}

/// The fields of a canonical object hold each key once, in ascending string
/// order, as a map does.
pub proof fn lemma_canonical_keys_ascending(fields: Seq<(Seq<char>, ValueView)>)
    ensures
        keys_ascending(canonical_fields(fields)),
    decreases fields.len(),
{
    if fields.len() > 0 {
        lemma_canonical_keys_ascending(fields.drop_last());
        lemma_put_field_keeps(canonical_fields(fields.drop_last()), fields.last().0, canonical_view(fields.last().1));
    }
}

/// `v` with every object's fields in map form (see [`canonical_view`]).
pub fn canonical(v: &QueryValue) -> (r: QueryValue)
    ensures
        r@ == canonical_view(v@),
    decreases v,
{
    match v {
        QueryValue::List(items) => {
            let mut out: Vec<QueryValue> = Vec::new();
            let mut i: usize = 0;
            proof {
                lemma_list_view(items@);
                assert(list_view(items@).take(0) =~= Seq::<ValueView>::empty());
            }
            while i < items.len()
                invariant
                    *v == QueryValue::List(*items),
                    i <= items@.len(),
                    list_view(items@).len() == items@.len(),
                    forall|j: int| 0 <= j < items@.len() ==> #[trigger] list_view(items@)[j] == items@[j]@,
                    list_view(out@) == canonical_items(list_view(items@).take(i as int)),
                decreases items@.len() - i,
            {
                proof {
                    assert(decreases_to!(*v => (*v)->List_0));
                    assert(decreases_to!(*items => items@));
                    assert(decreases_to!(items@ => items@[i as int]));
                }
                let item = canonical(&items[i]);
                let ghost before = out@;
                out.push(item);
                proof {
                    lemma_list_view(before);
                    lemma_list_view(out@);
                    assert(list_view(out@) =~= list_view(before).push(item@));
                    let t = list_view(items@).take(i as int + 1);
                    assert(t.drop_last() =~= list_view(items@).take(i as int));
                }
                i = i + 1;
            }
            proof {
                assert(list_view(items@).take(items@.len() as int) =~= list_view(items@));
            }
            QueryValue::List(out)
        },
        QueryValue::Object(fields) => {
            let mut out: Vec<(String, QueryValue)> = Vec::new();
            let mut i: usize = 0;
            proof {
                lemma_fields_view(fields@);
                assert(fields_view(fields@).take(0) =~= Seq::<(Seq<char>, ValueView)>::empty());
                lemma_fields_view(out@);
            }
            while i < fields.len()
                invariant
                    *v == QueryValue::Object(*fields),
                    i <= fields@.len(),
                    fields_view(fields@).len() == fields@.len(),
                    forall|j: int| 0 <= j < fields@.len() ==> #[trigger] fields_view(fields@)[j] == (fields@[j].0@, fields@[j].1@),
                    fields_view(out@) == canonical_fields(fields_view(fields@).take(i as int)),
                decreases fields@.len() - i,
            {
                proof {
                    assert(decreases_to!(*v => (*v)->Object_0));
                    assert(decreases_to!(*fields => fields@));
                    assert(decreases_to!(fields@ => fields@[i as int]));
                    assert(decreases_to!(fields@[i as int] => fields@[i as int].1));
                }
                let item = canonical(&fields[i].1);
                put_field_exec(&mut out, fields[i].0.clone(), item);
                proof {
                    let t = fields_view(fields@).take(i as int + 1);
                    assert(t.drop_last() =~= fields_view(fields@).take(i as int));
                }
                i = i + 1;
            }
            proof {
                assert(fields_view(fields@).take(fields@.len() as int) =~= fields_view(fields@));
            }
            QueryValue::Object(out)
        },
        QueryValue::Null => QueryValue::Null,
        QueryValue::Bool(b) => QueryValue::Bool(*b),
        QueryValue::Int(n) => QueryValue::Int(*n),
        QueryValue::Float(f) => QueryValue::Float(*f),
        QueryValue::String(s) => QueryValue::String(s.clone()),
        QueryValue::Enum(s) => QueryValue::Enum(s.clone()),
        QueryValue::EntityId(e) => QueryValue::EntityId(e.duplicate()),
    }
}

/// The filter operator named by a condition key.
pub open spec fn op_for_key(key: Seq<char>) -> Option<FilterOp> {
    if key == "eq"@ {
        Some(FilterOp::Eq)
    } else if key == "ne"@ {
        Some(FilterOp::Ne)
    } else if key == "gt"@ {
        Some(FilterOp::Gt)
    } else if key == "ge"@ {
        Some(FilterOp::Ge)
    } else if key == "lt"@ {
        Some(FilterOp::Lt)
    } else if key == "le"@ {
        Some(FilterOp::Le)
    } else if key == "in"@ {
        Some(FilterOp::In)
    } else if key == "contains"@ {
        Some(FilterOp::Contains)
    } else if key == "allofterms"@ {
        Some(FilterOp::AllOfTerms)
    } else if key == "anyofterms"@ {
        Some(FilterOp::AnyOfTerms)
    } else if key == "alloftext"@ {
        Some(FilterOp::AllOfText)
    } else if key == "anyoftext"@ {
        Some(FilterOp::AnyOfText)
    } else if key == "near"@ {
        Some(FilterOp::NearVector)
    } else if key == "within"@ {
        Some(FilterOp::Within)
    } else if key == "intersects"@ {
        Some(FilterOp::Intersects)
    } else {
        None
    }
}


/// The key a client writes for an operator: its wire name, with `near`
/// for the geo proximity operator.
pub open spec fn client_key(op: FilterOp) -> Seq<char> {
    if op == FilterOp::NearVector { "near"@ } else { op.name() }
}

/// Each condition key names its own operator: the operator a key lowers to
/// is the one whose client key it is, and every operator is reached from
/// its client key. Distinct keys therefore give distinct operators.
pub proof fn lemma_operator_keys(key: Seq<char>)
    ensures
        op_for_key(key) matches Some(op) ==> client_key(op) == key,
        forall|op: FilterOp| client_key(op) == key ==> op_for_key(key) == Some(op),
        forall|k1: Seq<char>, k2: Seq<char>| (op_for_key(k1) is Some && op_for_key(k1) == op_for_key(k2)) ==> k1 == k2,
{
    reveal_strlit("eq");
    reveal_strlit("ne");
    reveal_strlit("gt");
    reveal_strlit("ge");
    reveal_strlit("lt");
    reveal_strlit("le");
    reveal_strlit("in");
    reveal_strlit("contains");
    reveal_strlit("allofterms");
    reveal_strlit("anyofterms");
    reveal_strlit("alloftext");
    reveal_strlit("anyoftext");
    reveal_strlit("near");
    reveal_strlit("nearVector");
    reveal_strlit("within");
    reveal_strlit("intersects");
    assert forall|op: FilterOp| client_key(op) == key implies op_for_key(key) == Some(op) by {
        lemma_key_reaches_op(op);
    }
    assert forall|k1: Seq<char>, k2: Seq<char>| (op_for_key(k1) is Some && op_for_key(k1) == op_for_key(k2)) implies k1 == k2 by {
        lemma_op_key(k1);
        lemma_op_key(k2);
    }
    lemma_op_key(key);
}

proof fn lemma_op_key(key: Seq<char>)
    ensures
        op_for_key(key) matches Some(op) ==> client_key(op) == key,
{
}

proof fn lemma_key_reaches_op(op: FilterOp)
    ensures
        op_for_key(client_key(op)) == Some(op),
{
    reveal_strlit("eq");
    reveal_strlit("ne");
    reveal_strlit("gt");
    reveal_strlit("ge");
    reveal_strlit("lt");
    reveal_strlit("le");
    reveal_strlit("in");
    reveal_strlit("contains");
    reveal_strlit("allofterms");
    reveal_strlit("anyofterms");
    reveal_strlit("alloftext");
    reveal_strlit("anyoftext");
    reveal_strlit("near");
    reveal_strlit("within");
    reveal_strlit("intersects");
    match op {
        FilterOp::Eq => {

        },
        FilterOp::Ne => {
            assert("ne"@ != "eq"@) by { assert("ne"@[0] != "eq"@[0]); }
        },
        FilterOp::Gt => {
            assert("gt"@ != "eq"@) by { assert("gt"@[0] != "eq"@[0]); }
            assert("gt"@ != "ne"@) by { assert("gt"@[0] != "ne"@[0]); }
        },
        FilterOp::Ge => {
            assert("ge"@ != "eq"@) by { assert("ge"@[0] != "eq"@[0]); }
            assert("ge"@ != "ne"@) by { assert("ge"@[0] != "ne"@[0]); }
            assert("ge"@ != "gt"@) by { assert("ge"@[1] != "gt"@[1]); }
        },
        FilterOp::Lt => {
            assert("lt"@ != "eq"@) by { assert("lt"@[0] != "eq"@[0]); }
            assert("lt"@ != "ne"@) by { assert("lt"@[0] != "ne"@[0]); }
            assert("lt"@ != "gt"@) by { assert("lt"@[0] != "gt"@[0]); }
            assert("lt"@ != "ge"@) by { assert("lt"@[0] != "ge"@[0]); }
        },
        FilterOp::Le => {
            assert("le"@ != "eq"@) by { assert("le"@[0] != "eq"@[0]); }
            assert("le"@ != "ne"@) by { assert("le"@[0] != "ne"@[0]); }
            assert("le"@ != "gt"@) by { assert("le"@[0] != "gt"@[0]); }
            assert("le"@ != "ge"@) by { assert("le"@[0] != "ge"@[0]); }
            assert("le"@ != "lt"@) by { assert("le"@[1] != "lt"@[1]); }
        },
        FilterOp::In => {
            assert("in"@ != "eq"@) by { assert("in"@[0] != "eq"@[0]); }
            assert("in"@ != "ne"@) by { assert("in"@[0] != "ne"@[0]); }
            assert("in"@ != "gt"@) by { assert("in"@[0] != "gt"@[0]); }
            assert("in"@ != "ge"@) by { assert("in"@[0] != "ge"@[0]); }
            assert("in"@ != "lt"@) by { assert("in"@[0] != "lt"@[0]); }
            assert("in"@ != "le"@) by { assert("in"@[0] != "le"@[0]); }
        },
        FilterOp::Contains => {
            assert("contains"@ != "eq"@) by { assert("contains"@[0] != "eq"@[0]); }
            assert("contains"@ != "ne"@) by { assert("contains"@[0] != "ne"@[0]); }
            assert("contains"@ != "gt"@) by { assert("contains"@[0] != "gt"@[0]); }
            assert("contains"@ != "ge"@) by { assert("contains"@[0] != "ge"@[0]); }
            assert("contains"@ != "lt"@) by { assert("contains"@[0] != "lt"@[0]); }
            assert("contains"@ != "le"@) by { assert("contains"@[0] != "le"@[0]); }
            assert("contains"@ != "in"@) by { assert("contains"@[0] != "in"@[0]); }
        },
        FilterOp::AllOfTerms => {
            assert("allofterms"@ != "eq"@) by { assert("allofterms"@[0] != "eq"@[0]); }
            assert("allofterms"@ != "ne"@) by { assert("allofterms"@[0] != "ne"@[0]); }
            assert("allofterms"@ != "gt"@) by { assert("allofterms"@[0] != "gt"@[0]); }
            assert("allofterms"@ != "ge"@) by { assert("allofterms"@[0] != "ge"@[0]); }
            assert("allofterms"@ != "lt"@) by { assert("allofterms"@[0] != "lt"@[0]); }
            assert("allofterms"@ != "le"@) by { assert("allofterms"@[0] != "le"@[0]); }
            assert("allofterms"@ != "in"@) by { assert("allofterms"@[0] != "in"@[0]); }
            assert("allofterms"@ != "contains"@) by { assert("allofterms"@[0] != "contains"@[0]); }
        },
        FilterOp::AnyOfTerms => {
            assert("anyofterms"@ != "eq"@) by { assert("anyofterms"@[0] != "eq"@[0]); }
            assert("anyofterms"@ != "ne"@) by { assert("anyofterms"@[0] != "ne"@[0]); }
            assert("anyofterms"@ != "gt"@) by { assert("anyofterms"@[0] != "gt"@[0]); }
            assert("anyofterms"@ != "ge"@) by { assert("anyofterms"@[0] != "ge"@[0]); }
            assert("anyofterms"@ != "lt"@) by { assert("anyofterms"@[0] != "lt"@[0]); }
            assert("anyofterms"@ != "le"@) by { assert("anyofterms"@[0] != "le"@[0]); }
            assert("anyofterms"@ != "in"@) by { assert("anyofterms"@[0] != "in"@[0]); }
            assert("anyofterms"@ != "contains"@) by { assert("anyofterms"@[0] != "contains"@[0]); }
            assert("anyofterms"@ != "allofterms"@) by { assert("anyofterms"@[1] != "allofterms"@[1]); }
        },
        FilterOp::AllOfText => {
            assert("alloftext"@ != "eq"@) by { assert("alloftext"@[0] != "eq"@[0]); }
            assert("alloftext"@ != "ne"@) by { assert("alloftext"@[0] != "ne"@[0]); }
            assert("alloftext"@ != "gt"@) by { assert("alloftext"@[0] != "gt"@[0]); }
            assert("alloftext"@ != "ge"@) by { assert("alloftext"@[0] != "ge"@[0]); }
            assert("alloftext"@ != "lt"@) by { assert("alloftext"@[0] != "lt"@[0]); }
            assert("alloftext"@ != "le"@) by { assert("alloftext"@[0] != "le"@[0]); }
            assert("alloftext"@ != "in"@) by { assert("alloftext"@[0] != "in"@[0]); }
            assert("alloftext"@ != "contains"@) by { assert("alloftext"@[0] != "contains"@[0]); }
            assert("alloftext"@ != "allofterms"@) by { assert("alloftext"@[7] != "allofterms"@[7]); }
            assert("alloftext"@ != "anyofterms"@) by { assert("alloftext"@[1] != "anyofterms"@[1]); }
        },
        FilterOp::AnyOfText => {
            assert("anyoftext"@ != "eq"@) by { assert("anyoftext"@[0] != "eq"@[0]); }
            assert("anyoftext"@ != "ne"@) by { assert("anyoftext"@[0] != "ne"@[0]); }
            assert("anyoftext"@ != "gt"@) by { assert("anyoftext"@[0] != "gt"@[0]); }
            assert("anyoftext"@ != "ge"@) by { assert("anyoftext"@[0] != "ge"@[0]); }
            assert("anyoftext"@ != "lt"@) by { assert("anyoftext"@[0] != "lt"@[0]); }
            assert("anyoftext"@ != "le"@) by { assert("anyoftext"@[0] != "le"@[0]); }
            assert("anyoftext"@ != "in"@) by { assert("anyoftext"@[0] != "in"@[0]); }
            assert("anyoftext"@ != "contains"@) by { assert("anyoftext"@[0] != "contains"@[0]); }
            assert("anyoftext"@ != "allofterms"@) by { assert("anyoftext"@[1] != "allofterms"@[1]); }
            assert("anyoftext"@ != "anyofterms"@) by { assert("anyoftext"@[7] != "anyofterms"@[7]); }
            assert("anyoftext"@ != "alloftext"@) by { assert("anyoftext"@[1] != "alloftext"@[1]); }
        },
        FilterOp::NearVector => {
            assert("near"@ != "eq"@) by { assert("near"@[0] != "eq"@[0]); }
            assert("near"@ != "ne"@) by { assert("near"@.len() != "ne"@.len()); }
            assert("near"@ != "gt"@) by { assert("near"@[0] != "gt"@[0]); }
            assert("near"@ != "ge"@) by { assert("near"@[0] != "ge"@[0]); }
            assert("near"@ != "lt"@) by { assert("near"@[0] != "lt"@[0]); }
            assert("near"@ != "le"@) by { assert("near"@[0] != "le"@[0]); }
            assert("near"@ != "in"@) by { assert("near"@[0] != "in"@[0]); }
            assert("near"@ != "contains"@) by { assert("near"@[0] != "contains"@[0]); }
            assert("near"@ != "allofterms"@) by { assert("near"@[0] != "allofterms"@[0]); }
            assert("near"@ != "anyofterms"@) by { assert("near"@[0] != "anyofterms"@[0]); }
            assert("near"@ != "alloftext"@) by { assert("near"@[0] != "alloftext"@[0]); }
            assert("near"@ != "anyoftext"@) by { assert("near"@[0] != "anyoftext"@[0]); }
        },
        FilterOp::Within => {
            assert("within"@ != "eq"@) by { assert("within"@[0] != "eq"@[0]); }
            assert("within"@ != "ne"@) by { assert("within"@[0] != "ne"@[0]); }
            assert("within"@ != "gt"@) by { assert("within"@[0] != "gt"@[0]); }
            assert("within"@ != "ge"@) by { assert("within"@[0] != "ge"@[0]); }
            assert("within"@ != "lt"@) by { assert("within"@[0] != "lt"@[0]); }
            assert("within"@ != "le"@) by { assert("within"@[0] != "le"@[0]); }
            assert("within"@ != "in"@) by { assert("within"@[0] != "in"@[0]); }
            assert("within"@ != "contains"@) by { assert("within"@[0] != "contains"@[0]); }
            assert("within"@ != "allofterms"@) by { assert("within"@[0] != "allofterms"@[0]); }
            assert("within"@ != "anyofterms"@) by { assert("within"@[0] != "anyofterms"@[0]); }
            assert("within"@ != "alloftext"@) by { assert("within"@[0] != "alloftext"@[0]); }
            assert("within"@ != "anyoftext"@) by { assert("within"@[0] != "anyoftext"@[0]); }
            assert("within"@ != "near"@) by { assert("within"@[0] != "near"@[0]); }
        },
        FilterOp::Intersects => {
            assert("intersects"@ != "eq"@) by { assert("intersects"@[0] != "eq"@[0]); }
            assert("intersects"@ != "ne"@) by { assert("intersects"@[0] != "ne"@[0]); }
            assert("intersects"@ != "gt"@) by { assert("intersects"@[0] != "gt"@[0]); }
            assert("intersects"@ != "ge"@) by { assert("intersects"@[0] != "ge"@[0]); }
            assert("intersects"@ != "lt"@) by { assert("intersects"@[0] != "lt"@[0]); }
            assert("intersects"@ != "le"@) by { assert("intersects"@[0] != "le"@[0]); }
            assert("intersects"@ != "in"@) by { assert("intersects"@.len() != "in"@.len()); }
            assert("intersects"@ != "contains"@) by { assert("intersects"@[0] != "contains"@[0]); }
            assert("intersects"@ != "allofterms"@) by { assert("intersects"@[0] != "allofterms"@[0]); }
            assert("intersects"@ != "anyofterms"@) by { assert("intersects"@[0] != "anyofterms"@[0]); }
            assert("intersects"@ != "alloftext"@) by { assert("intersects"@[0] != "alloftext"@[0]); }
            assert("intersects"@ != "anyoftext"@) by { assert("intersects"@[0] != "anyoftext"@[0]); }
            assert("intersects"@ != "near"@) by { assert("intersects"@[0] != "near"@[0]); }
            assert("intersects"@ != "within"@) by { assert("intersects"@[0] != "within"@[0]); }
        },
    }
}

/// A condition object with one operator key lowers to the one predicate
/// `field op value` for the operator that key names.
pub proof fn lemma_single_operator_condition(field: Seq<char>, key: Seq<char>, value: ValueView)
    requires
        key != "between"@,
        op_for_key(key) is Some,
    ensures
        lower_condition(field, ValueView::Object(seq![(key, value)])) == pred_view(field, op_for_key(key)->0, value),
        client_key(op_for_key(key)->0) == key,
{
    reveal_strlit("between");
    let obj = seq![(key, value)];
    assert(obj.drop_last() =~= Seq::<(Seq<char>, ValueView)>::empty());
    assert(obj.last() == (key, value));
    assert(condition_preds(field, obj.drop_last()) =~= Seq::<FilterView>::empty());
    assert(condition_preds(field, obj) =~= seq![pred_view(field, op_for_key(key)->0, value)]);
    lemma_op_key(key);
}

/// Keys that make a condition object an operator object.
pub open spec fn is_operator_key(key: Seq<char>) -> bool {
    key == "between"@ || op_for_key(key) is Some
}

/// Some key of the object is an operator key.
pub open spec fn has_operator_key(obj: Seq<(Seq<char>, ValueView)>) -> bool {
    exists|i: int| 0 <= i < obj.len() && is_operator_key(#[trigger] obj[i].0)
}

/// The predicate `field op value`, with the value in canonical form.
pub open spec fn pred_view(field: Seq<char>, op: FilterOp, value: ValueView) -> FilterView {
    FilterView::Predicate(PredicateView { path: seq![SegmentView::Field(field)], op, value: canonical_view(value) })
}

/// Predicates of an operator object on `field`, in key order: `between:
/// [min, max]` gives `>= min` and `<= max` (other shapes are ignored), a
/// known operator key gives one predicate, unknown keys give none.
pub open spec fn condition_preds(field: Seq<char>, obj: Seq<(Seq<char>, ValueView)>) -> Seq<FilterView>
    decreases obj.len(),
{
    if obj.len() == 0 {
        Seq::empty()
    } else {
        let prev = condition_preds(field, obj.drop_last());
        let key = obj.last().0;
        let val = obj.last().1;
        if key == "between"@ {
            match val {
                ValueView::List(items) => if items.len() == 2 {
                    prev + seq![pred_view(field, FilterOp::Ge, items[0]), pred_view(field, FilterOp::Le, items[1])]
                } else {
                    prev
                },
                _ => prev,
            }
        } else {
            match op_for_key(key) {
                Some(op) => prev.push(pred_view(field, op, val)),
                None => prev,
            }
        }
    }
}

/// A filter object: the conjunction of what each of its entries lowers to.
pub open spec fn lower_map(entries: Seq<(Seq<char>, ValueView)>) -> FilterView
    decreases entries, 2int,
{
    FilterView::And(lower_entries(entries))
}

pub open spec fn lower_entries(entries: Seq<(Seq<char>, ValueView)>) -> Seq<FilterView>
    decreases entries, 1int,
{
    if entries.len() == 0 {
        Seq::empty()
    } else {
        lower_entries(entries.drop_last()) + lower_part(entries.last().0, entries.last().1)
    }
}

/// What one entry of a filter object contributes: `and` / `or` over their
/// nested objects (nothing when none), `not` over its nested object, and a
/// field condition for any other key.
pub open spec fn lower_part(key: Seq<char>, cond: ValueView) -> Seq<FilterView>
    decreases cond, 1int,
{
    if key == "and"@ {
        match cond {
            ValueView::List(items) => {
                let subs = nested_all(items);
                if subs.len() > 0 { seq![FilterView::And(subs)] } else { Seq::empty() }
            },
            _ => Seq::empty(),
        }
    } else if key == "or"@ {
        match cond {
            ValueView::List(items) => {
                let subs = nested_all(items);
                if subs.len() > 0 { seq![FilterView::Or(subs)] } else { Seq::empty() }
            },
            _ => Seq::empty(),
        }
    } else if key == "not"@ {
        match cond {
            ValueView::Object(o) => seq![FilterView::Not(Box::new(lower_map(o)))],
            _ => Seq::empty(),
        }
    } else {
        seq![lower_condition(key, cond)]
    }
}

/// The nested filter objects of a list, lowered; other items are skipped.
pub open spec fn nested_all(items: Seq<ValueView>) -> Seq<FilterView>
    decreases items, 1int,
{
    if items.len() == 0 {
        Seq::empty()
    } else {
        let prev = nested_all(items.drop_last());
        match items.last() {
            ValueView::Object(o) => prev.push(lower_map(o)),
            _ => prev,
        }
    }
}

/// The condition on one field: a scalar means equality; an operator object
/// gives its predicates (one alone, or their conjunction; an empty
/// conjunction when every operator is unknown); any other object filters
/// the entities related through the field.
pub open spec fn lower_condition(field: Seq<char>, cond: ValueView) -> FilterView
    decreases cond, 0int,
{
    match cond {
        ValueView::Object(obj) => {
            let preds = condition_preds(field, obj);
            if preds.len() > 0 {
                if preds.len() == 1 { preds[0] } else { FilterView::And(preds) }
            } else if has_operator_key(obj) {
                FilterView::And(Seq::empty())
            } else {
                FilterView::Relation { field, target_type: Seq::empty(), filter: Box::new(lower_map(obj)) }
            }
        },
        scalar => pred_view(field, FilterOp::Eq, scalar),
    }
}

/// The filter operator named by `key`.
fn op_for(key: &str) -> (r: Option<FilterOp>)
    ensures
        r == op_for_key(key@),
{
    if same_text(key, "eq") {
        Some(FilterOp::Eq)
    } else if same_text(key, "ne") {
        Some(FilterOp::Ne)
    } else if same_text(key, "gt") {
        Some(FilterOp::Gt)
    } else if same_text(key, "ge") {
        Some(FilterOp::Ge)
    } else if same_text(key, "lt") {
        Some(FilterOp::Lt)
    } else if same_text(key, "le") {
        Some(FilterOp::Le)
    } else if same_text(key, "in") {
        Some(FilterOp::In)
    } else if same_text(key, "contains") {
        Some(FilterOp::Contains)
    } else if same_text(key, "allofterms") {
        Some(FilterOp::AllOfTerms)
    } else if same_text(key, "anyofterms") {
        Some(FilterOp::AnyOfTerms)
    } else if same_text(key, "alloftext") {
        Some(FilterOp::AllOfText)
    } else if same_text(key, "anyoftext") {
        Some(FilterOp::AnyOfText)
    } else if same_text(key, "near") {
        Some(FilterOp::NearVector)
    } else if same_text(key, "within") {
        Some(FilterOp::Within)
    } else if same_text(key, "intersects") {
        Some(FilterOp::Intersects)
    } else {
        None
    }
}

/// True for keys that make a condition object an operator object.
pub fn is_operator_key_exec(key: &str) -> (b: bool)
    ensures
        b == is_operator_key(key@),
{
    same_text(key, "between") || op_for(key).is_some()
}

/// True when some key of the object is an operator key.
pub fn is_operator_map(map: &Vec<(String, QueryValue)>) -> (b: bool)
    ensures
        b == has_operator_key(fields_view(map@)),
{
    proof {
        lemma_fields_view(map@);
    }
    let mut i: usize = 0;
    while i < map.len()
        invariant
            i <= map@.len(),
            fields_view(map@).len() == map@.len(),
            forall|j: int| 0 <= j < map@.len() ==> #[trigger] fields_view(map@)[j] == (map@[j].0@, map@[j].1@),
            forall|j: int| 0 <= j < i ==> !is_operator_key(#[trigger] fields_view(map@)[j].0),
        decreases map@.len() - i,
    {
        if is_operator_key_exec(map[i].0.as_str()) {
            proof {
                assert(is_operator_key(fields_view(map@)[i as int].0));
            }
            return true;
        }
        i = i + 1;
    }
    false
}

/// The predicate `field op value`, with the value in canonical form.
fn pred(field: &str, op: FilterOp, value: &QueryValue) -> (r: LogicalFilter)
    ensures
        r@ == pred_view(field@, op, value@),
{
    let path = FieldPath::field(field);
    proof {
        assert(path_view(path) =~= seq![SegmentView::Field(field@)]);
    }
    LogicalFilter::Predicate(FilterPredicate { path, op, value: canonical(value) })
}

/// Predicates of an operator object on `field` (see [`condition_preds`]).
fn condition_preds_exec(field: &str, obj: &Vec<(String, QueryValue)>) -> (r: Vec<LogicalFilter>)
    ensures
        filters_view(r@) == condition_preds(field@, fields_view(obj@)),
{
    let ghost fv = fields_view(obj@);
    proof {
        lemma_fields_view(obj@);
        assert(fv.take(0) =~= Seq::<(Seq<char>, ValueView)>::empty());
    }
    let mut out: Vec<LogicalFilter> = Vec::new();
    let mut i: usize = 0;
    while i < obj.len()
        invariant
            i <= obj@.len(),
            fv == fields_view(obj@),
            fv.len() == obj@.len(),
            forall|j: int| 0 <= j < obj@.len() ==> #[trigger] fv[j] == (obj@[j].0@, obj@[j].1@),
            filters_view(out@) == condition_preds(field@, fv.take(i as int)),
        decreases obj@.len() - i,
    {
        proof {
            assert(fv.take(i as int + 1).drop_last() =~= fv.take(i as int));
            assert(fv.take(i as int + 1).last() == fv[i as int]);
        }
        let key = obj[i].0.as_str();
        let val = &obj[i].1;
        let ghost before = out@;
        if same_text(key, "between") {
            match val {
                QueryValue::List(items) => {
                    proof {
                        lemma_list_view(items@);
                    }
                    if items.len() == 2 {
                        let lo = pred(field, FilterOp::Ge, &items[0]);
                        let hi = pred(field, FilterOp::Le, &items[1]);
                        out.push(lo);
                        out.push(hi);
                        proof {
                            lemma_filters_view(before);
                            lemma_filters_view(out@);
                            assert(filters_view(out@) =~= filters_view(before) + seq![lo@, hi@]);
                        }
                    }
                },
                _ => {},
            }
        } else {
            match op_for(key) {
                Some(op) => {
                    let p = pred(field, op, val);
                    out.push(p);
                    proof {
                        lemma_filters_view(before);
                        lemma_filters_view(out@);
                        assert(filters_view(out@) =~= filters_view(before).push(p@));
                    }
                },
                None => {},
            }
        }
        i = i + 1;
    }
    proof {
        assert(fv.take(obj@.len() as int) =~= fv);
    }
    out
}

/// Lowers a filter object to the conjunction of what each entry gives (see
/// [`lower_map`]).
pub fn lower_filter_map(map: &Vec<(String, QueryValue)>) -> (r: LogicalFilter)
    ensures
        r@ == lower_map(fields_view(map@)),
    decreases map, 2int,
{
    let parts = lower_entries_exec(map);
    LogicalFilter::And(parts)
}

fn lower_entries_exec(map: &Vec<(String, QueryValue)>) -> (r: Vec<LogicalFilter>)
    ensures
        filters_view(r@) == lower_entries(fields_view(map@)),
    decreases map, 1int,
{
    let ghost fv = fields_view(map@);
    proof {
        lemma_fields_view(map@);
        assert(fv.take(0) =~= Seq::<(Seq<char>, ValueView)>::empty());
    }
    let mut out: Vec<LogicalFilter> = Vec::new();
    let mut i: usize = 0;
    while i < map.len()
        invariant
            i <= map@.len(),
            fv == fields_view(map@),
            fv.len() == map@.len(),
            forall|j: int| 0 <= j < map@.len() ==> #[trigger] fv[j] == (map@[j].0@, map@[j].1@),
            filters_view(out@) == lower_entries(fv.take(i as int)),
        decreases map@.len() - i,
    {
        proof {
            assert(fv.take(i as int + 1).drop_last() =~= fv.take(i as int));
            assert(fv.take(i as int + 1).last() == fv[i as int]);
            assert(decreases_to!(*map => map@));
            assert(decreases_to!(map@ => map@[i as int]));
            assert(decreases_to!(map@[i as int] => map@[i as int].1));
        }
        let ghost before = out@;
        let mut more = lower_part_exec(&map[i].0, &map[i].1);
        let ghost added = more@;
        out.append(&mut more);
        proof {
            lemma_filters_view(before);
            lemma_filters_view(added);
            lemma_filters_view(out@);
            assert(filters_view(out@) =~= filters_view(before) + filters_view(added));
        }
        i = i + 1;
    }
    proof {
        assert(fv.take(map@.len() as int) =~= fv);
    }
    out
}

/// One filter holding `f`.
fn single(f: LogicalFilter) -> (r: Vec<LogicalFilter>)
    ensures
        filters_view(r@) == seq![f@],
{
    let mut r: Vec<LogicalFilter> = Vec::new();
    r.push(f);
    proof {
        lemma_filters_view(r@);
        assert(filters_view(r@) =~= seq![f@]);
    }
    r
}

fn no_filters() -> (r: Vec<LogicalFilter>)
    ensures
        filters_view(r@) == Seq::<FilterView>::empty(),
{
    let r: Vec<LogicalFilter> = Vec::new();
    proof {
        lemma_filters_view(r@);
        assert(filters_view(r@) =~= Seq::<FilterView>::empty());
    }
    r
}

fn lower_part_exec(key: &String, cond: &QueryValue) -> (r: Vec<LogicalFilter>)
    ensures
        filters_view(r@) == lower_part(key@, cond@),
    decreases cond, 1int,
{
    if same_text(key.as_str(), "and") || same_text(key.as_str(), "or") {
        let is_and = same_text(key.as_str(), "and");
        match cond {
            QueryValue::List(items) => {
                proof {
                    assert(decreases_to!(*cond => (*cond)->List_0));
                }
                let subs = nested_all_exec(items);
                if subs.len() > 0 {
                    proof {
                        lemma_filters_view(subs@);
                    }
                    if is_and {
                        single(LogicalFilter::And(subs))
                    } else {
                        single(LogicalFilter::Or(subs))
                    }
                } else {
                    proof {
                        lemma_filters_view(subs@);
                    }
                    no_filters()
                }
            },
            _ => no_filters(),
        }
    } else if same_text(key.as_str(), "not") {
        match cond {
            QueryValue::Object(o) => {
                proof {
                    assert(decreases_to!(*cond => (*cond)->Object_0));
                }
                let inner = lower_filter_map(o);
                single(LogicalFilter::Not(Box::new(inner)))
            },
            _ => no_filters(),
        }
    } else {
        single(lower_condition_exec(key, cond))
    }
}

fn nested_all_exec(items: &Vec<QueryValue>) -> (r: Vec<LogicalFilter>)
    ensures
        filters_view(r@) == nested_all(list_view(items@)),
    decreases items, 1int,
{
    let ghost lv = list_view(items@);
    proof {
        lemma_list_view(items@);
        assert(lv.take(0) =~= Seq::<ValueView>::empty());
    }
    let mut out: Vec<LogicalFilter> = Vec::new();
    proof {
        lemma_filters_view(out@);
    }
    let mut i: usize = 0;
    while i < items.len()
        invariant
            i <= items@.len(),
            lv == list_view(items@),
            lv.len() == items@.len(),
            forall|j: int| 0 <= j < items@.len() ==> #[trigger] lv[j] == items@[j]@,
            filters_view(out@) == nested_all(lv.take(i as int)),
        decreases items@.len() - i,
    {
        proof {
            assert(lv.take(i as int + 1).drop_last() =~= lv.take(i as int));
            assert(lv.take(i as int + 1).last() == lv[i as int]);
            assert(decreases_to!(*items => items@));
            assert(decreases_to!(items@ => items@[i as int]));
        }
        match &items[i] {
            QueryValue::Object(o) => {
                proof {
                    assert(decreases_to!(items@[i as int] => items@[i as int]->Object_0));
                }
                let ghost before = out@;
                let f = lower_filter_map(o);
                out.push(f);
                proof {
                    lemma_filters_view(before);
                    lemma_filters_view(out@);
                    assert(filters_view(out@) =~= filters_view(before).push(f@));
                }
            },
            _ => {},
        }
        i = i + 1;
    }
    proof {
        assert(lv.take(items@.len() as int) =~= lv);
    }
    out
}

fn lower_condition_exec(field: &String, cond: &QueryValue) -> (r: LogicalFilter)
    ensures
        r@ == lower_condition(field@, cond@),
    decreases cond, 0int,
{
    match cond {
        QueryValue::Object(obj) => {
            let mut preds = condition_preds_exec(field.as_str(), obj);
            proof {
                lemma_filters_view(preds@);
            }
            if preds.len() > 0 {
                if preds.len() == 1 {
                    let ghost all = preds@;
                    let only = preds.pop().unwrap();
                    proof {
                        assert(only == all[0]);
                        assert(filters_view(all)[0] == only@);
                    }
                    only
                } else {
                    LogicalFilter::And(preds)
                }
            } else if is_operator_map(obj) {
                let none: Vec<LogicalFilter> = Vec::new();
                proof {
                    lemma_filters_view(none@);
                    assert(filters_view(none@) =~= Seq::<FilterView>::empty());
                }
                LogicalFilter::And(none)
            } else {
                proof {
                    assert(decreases_to!(*cond => (*cond)->Object_0));
                }
                let inner = lower_filter_map(obj);
                LogicalFilter::Relation { field: field.clone(), target_type: String::new(), filter: Box::new(inner) }
            }
        },
        _ => pred(field.as_str(), FilterOp::Eq, cond),
    }
}

/// Sort direction named by a value: descending for the string or enum
/// `DESC`, ascending otherwise.
pub open spec fn direction_of(v: ValueView) -> SortDirection {
    match v {
        ValueView::String(s) => if s == "DESC"@ { SortDirection::Desc } else { SortDirection::Asc },
        ValueView::Enum(s) => if s == "DESC"@ { SortDirection::Desc } else { SortDirection::Asc },
        _ => SortDirection::Asc,
    }
}

/// Lowers a sort argument (`{ field: ASC|DESC }`) into order keys, one per
/// entry, in entry order.
pub fn lower_sort_map(sort_map: &Vec<(String, QueryValue)>) -> (keys: Vec<OrderKey>)
    ensures
        keys@.len() == sort_map@.len(),
        forall|i: int| 0 <= i < sort_map@.len() ==> {
            &&& path_view((#[trigger] keys@[i]).path) == seq![SegmentView::Field(sort_map@[i].0@)]
            &&& keys@[i].direction == direction_of(sort_map@[i].1@)
        },
{
    let mut keys: Vec<OrderKey> = Vec::new();
    let mut i: usize = 0;
    while i < sort_map.len()
        invariant
            i <= sort_map@.len(),
            keys@.len() == i,
            forall|j: int| 0 <= j < i ==> {
                &&& path_view((#[trigger] keys@[j]).path) == seq![SegmentView::Field(sort_map@[j].0@)]
                &&& keys@[j].direction == direction_of(sort_map@[j].1@)
            },
        decreases sort_map@.len() - i,
    {
        let direction = match &sort_map[i].1 {
            QueryValue::String(s) => if same_text(s.as_str(), "DESC") { SortDirection::Desc } else { SortDirection::Asc },
            QueryValue::Enum(s) => if same_text(s.as_str(), "DESC") { SortDirection::Desc } else { SortDirection::Asc },
            _ => SortDirection::Asc,
        };
        let path = FieldPath::field(sort_map[i].0.as_str());
        proof {
            assert(path_view(path) =~= seq![SegmentView::Field(sort_map@[i as int].0@)]);
        }
        keys.push(OrderKey { path, direction });
        i = i + 1;
    }
    keys
}

/// `keys` are the order keys a sort argument lowers to (see [`lower_sort_map`]).
pub open spec fn sort_lowered(keys: Seq<OrderKey>, sort: Seq<(String, QueryValue)>) -> bool {
    &&& keys.len() == sort.len()
    &&& forall|i: int| 0 <= i < sort.len() ==> {
        &&& path_view((#[trigger] keys[i]).path) == seq![SegmentView::Field(sort[i].0@)]
        &&& keys[i].direction == direction_of(sort[i].1@)
    }
}

/// The resume cursor a textual `after` argument gives on `type_label`: the
/// entity of that type whose uid the text names, none when it names none.
pub open spec fn after_cursor(type_label: Seq<char>, after: Option<String>, c: Option<CursorValue>) -> bool {
    match after {
        Some(text) => match parsed_u64(text@) {
            Some(uid) => c matches Some(CursorValue::Entity(e))
                && e.uid == uid && (e.entity_type matches Some(t) && t@ == type_label),
            None => c is None,
        },
        None => c is None,
    }
}

/// The read of `type_label` a root query asks for: a type scan under the
/// lowered filter (present even when empty), ordered by the lowered sort,
/// paged by `first` and `offset` and resumed after the entity `after` names.
pub fn lower_root_query(
    type_label: &str,
    filter_map: &Vec<(String, QueryValue)>,
    sort_map: &Vec<(String, QueryValue)>,
    first: Option<usize>,
    after: Option<String>,
    offset: Option<usize>,
) -> (q: LogicalQuery)
    ensures
        q.root matches QueryRoot::TypeScan { type_label: t } && t@ == type_label@,
        q.filter matches Some(f) && f@ == lower_map(fields_view(filter_map@)),
        sort_lowered(q.order_by@, sort_map@),
        q.pagination.first == first,
        q.pagination.offset == offset,
        after_cursor(type_label@, after, q.pagination.after),
        q.projection.fields@.len() == 0,
        q.relations@.len() == 0,
        q.aggregates@.len() == 0,
        q.explain == ExplainMode::Off,
{
    let mut query = LogicalQuery::scan(type_label);
    query.filter = Some(lower_filter_map(filter_map));
    query.order_by = lower_sort_map(sort_map);
    let cursor = match &after {
        Some(text) => match parse_u64(text.as_str()) {
            Some(uid) => Some(CursorValue::Entity(EntityId::typed(type_label, uid))),
            None => None,
        },
        None => None,
    };
    query.pagination.first = first;
    query.pagination.offset = offset;
    query.pagination.after = cursor;
    query
}

/// The count of `type_label` rows passing a filter: the root query of the
/// filter, unsorted and unpaged, with one `Count` aggregate aliased `_count`
/// and no explain.
pub fn lower_count_query(type_label: &str, filter_map: &Vec<(String, QueryValue)>) -> (q: LogicalQuery)
    ensures
        q.root matches QueryRoot::TypeScan { type_label: t } && t@ == type_label@,
        q.filter matches Some(f) && f@ == lower_map(fields_view(filter_map@)),
        q.order_by@.len() == 0,
        q.pagination.first is None && q.pagination.offset is None && q.pagination.after is None,
        q.projection.fields@.len() == 0,
        q.relations@.len() == 0,
        q.aggregates@.len() == 1,
        q.aggregates@[0].function == AggregateFunction::Count,
        q.aggregates@[0].expr is None,
        q.aggregates@[0].alias@ == "_count"@,
        q.explain == ExplainMode::Off,
{
    let mut query = lower_root_query(type_label, filter_map, &Vec::new(), None, None, None);
    let mut aggregates: Vec<AggregateSpec> = Vec::new();
    aggregates.push(AggregateSpec { function: AggregateFunction::Count, expr: None, alias: String::from_str("_count") });
    query.aggregates = aggregates;
    query.explain = ExplainMode::Off;
    query
}

/// The lookup of the `type_label` entity whose unique `field` holds `value`:
/// no filter, order, pagination or aggregates.
pub fn lower_get_query(type_label: &str, field: &str, value: &QueryValue) -> (q: LogicalQuery)
    ensures
        q.root matches QueryRoot::UniqueLookup { type_label: t, field: f, value: v }
            && t@ == type_label@ && f@ == field@ && v@ == value@,
        q.filter is None,
        q.order_by@.len() == 0,
        q.pagination.first is None && q.pagination.offset is None && q.pagination.after is None,
        q.projection.fields@.len() == 0,
        q.relations@.len() == 0,
        q.aggregates@.len() == 0,
        q.explain == ExplainMode::Off,
{
    let mut query = LogicalQuery::scan(type_label);
    query.root = QueryRoot::UniqueLookup {
        type_label: String::from_str(type_label),
        field: String::from_str(field),
        value: copy_value(value),
    };
    query.filter = None;
    query
}

} // verus!
