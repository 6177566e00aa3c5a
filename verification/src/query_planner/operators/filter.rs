//! Residual filter operator: keeps the rows whose entity satisfies a
//! logical filter. The boolean structure (and / or / not) and relation
//! traversal are evaluated here; every leaf comparison is answered by the
//! runtime's condition check, so the operator and the storage layer can
//! never disagree on what a condition means.
use vstd::prelude::*;
use crate::query_planner::ir::{
    fields_view, filters_view, lemma_fields_view, lemma_filters_view, lemma_list_view, list_view,
    path_view, predicate_view, untyped_id, EntityId, FieldPath, FieldSegment, FilterOp,
    FilterPredicate, FilterView, LogicalFilter, PredicateView, QueryValue, SegmentView, ValueView,
};
use crate::query_planner::physical_expr::{copy_value, field_value, find_field, ExprError};
use crate::query_planner::traits::{stored_view, PlannerRuntime};
use crate::render::{concat_num, decimal};
use super::{
    batches_view, clock_now, context_extends, flow_of, make_stat, CardinalityHint, ExecContext,
    FlowResult, Operator, OperatorKind, OutputOrdering, RowBatch,
};

verus! {

/// Value of an ASCII digit character.
pub open spec fn digit_value(c: char) -> int {
    c as int - 48
}

pub open spec fn is_digit(c: char) -> bool {
    48 <= c as int && c as int <= 57
}

/// Decimal value of a string of digits.
pub open spec fn digits_value(s: Seq<char>) -> int
    decreases s.len(),
{
    if s.len() == 0 {
        0
    } else {
        digits_value(s.drop_last()) * 10 + digit_value(s.last())
    }
}

/// The digits after an optional leading `+`.
pub open spec fn unsigned_digits(s: Seq<char>) -> Seq<char> {
    if s.len() > 0 && s[0] == '+' {
        s.drop_first()
    } else {
        s
    }
}

/// `s` read as a `u64` the way `str::parse::<u64>` reads it: an optional
/// leading `+`, then one or more ASCII digits whose value fits in 64 bits.
pub open spec fn parsed_u64(s: Seq<char>) -> Option<u64> {
    let d = unsigned_digits(s);
    if d.len() > 0 && (forall|i: int| 0 <= i < d.len() ==> is_digit(#[trigger] d[i])) && digits_value(d) <= u64::MAX {
        Some(digits_value(d) as u64)
    } else {
        None
    }
}

/// A longer digit string is worth at least as much as its prefix.
proof fn lemma_digits_prefix(d: Seq<char>, j: int, k: int)
    requires
        0 <= j <= k <= d.len(),
        forall|i: int| 0 <= i < d.len() ==> is_digit(#[trigger] d[i]),
    ensures
        0 <= digits_value(d.take(j)) <= digits_value(d.take(k)),
    decreases k - j,
{
    if j < k {
        lemma_digits_prefix(d, j, k - 1);
        assert(d.take(k).drop_last() =~= d.take(k - 1));
        assert(d.take(k).last() == d[k - 1]);
        assert(is_digit(d[k - 1]));
    } else {
        lemma_digits_nonneg(d.take(j));
    }
}

proof fn lemma_digits_nonneg(d: Seq<char>)
    requires
        forall|i: int| 0 <= i < d.len() ==> is_digit(#[trigger] d[i]),
    ensures
        digits_value(d) >= 0,
    decreases d.len(),
{
    if d.len() > 0 {
        assert(is_digit(d[d.len() - 1]));
        lemma_digits_nonneg(d.drop_last());
    }
}

/// Reads `s` as a `u64` (see [`parsed_u64`]).
pub fn parse_u64(s: &str) -> (r: Option<u64>)
    ensures
        r == parsed_u64(s@),
{
    let n = s.unicode_len();
    let mut start: usize = 0;
    if n > 0 && s.get_char(0) == '+' {
        start = 1;
    }
    let ghost d = unsigned_digits(s@);
    proof {
        assert(d =~= s@.skip(start as int));
    }
    if start == n {
        return None;
    }
    let mut acc: u64 = 0;
    let mut i: usize = start;
    while i < n
        invariant
            start <= i <= n,
            n == s@.len(),
            start < n,
            d == s@.skip(start as int),
            d == unsigned_digits(s@),
            forall|k: int| 0 <= k < i - start ==> is_digit(#[trigger] d[k]),
            acc as int == digits_value(d.take(i - start)),
        decreases n - i,
    {
        let c = s.get_char(i);
        let code = c as u32;
        let ghost p = (i - start) as int;
        proof {
            assert(d[p] == c);
            assert(code as int == c as int);
        }
        if code < 48 || code > 57 {
            proof {
                assert(!is_digit(d[p]));
            }
            return None;
        }
        let dv: u64 = (code - 48) as u64;
        proof {
            assert(is_digit(d[p]));
            assert(dv as int == digit_value(c));
            assert(d.take(p + 1).drop_last() =~= d.take(p));
            assert(d.take(p + 1).last() == c);
            assert(digits_value(d.take(p + 1)) == acc * 10 + dv);
        }
        let next = match acc.checked_mul(10) {
            Some(m) => m.checked_add(dv),
            None => None,
        };
        match next {
            Some(v) => {
                acc = v;
            },
            None => {
                proof {
                    if forall|k: int| 0 <= k < d.len() ==> is_digit(#[trigger] d[k]) {
                        lemma_digits_prefix(d, p + 1, d.len() as int);
                        assert(d.take(d.len() as int) =~= d);
                    }
                }
                return None;
            },
        }
        i = i + 1;
    }
    proof {
        assert(d.take(n - start) =~= d);
    }
    Some(acc)
}

/// The entity uid a stored value refers to: a decimal string, a
/// non-negative integer, or an object's `uid` field (its `id` field when
/// it has no `uid`).
pub open spec fn value_uid(v: ValueView) -> Option<u64>
    decreases v, 1int,
{
    match v {
        ValueView::String(s) => parsed_u64(s),
        ValueView::Int(n) => if n >= 0 { Some(n as u64) } else { None },
        ValueView::Object(fields) => match lookup_uid(fields, "uid"@) {
            Some(r) => r,
            None => match lookup_uid(fields, "id"@) {
                Some(r) => r,
                None => None,
            },
        },
        _ => None,
    }
}

/// `None` when no field is named `name`; otherwise the uid the first such
/// field refers to.
pub open spec fn lookup_uid(fields: Seq<(Seq<char>, ValueView)>, name: Seq<char>) -> Option<Option<u64>>
    decreases fields, 0int,
{
    if fields.len() == 0 {
        None
    } else if fields[0].0 == name {
        Some(value_uid(fields[0].1))
    } else {
        lookup_uid(fields.drop_first(), name)
    }
}

proof fn lemma_lookup_uid(fields: Seq<(Seq<char>, ValueView)>, name: Seq<char>)
    ensures
        lookup_uid(fields, name) == match field_value(fields, name) {
            Some(x) => Some(value_uid(x)),
            None => None::<Option<u64>>,
        },
    decreases fields.len(),
{
    if fields.len() > 0 && fields[0].0 != name {
        lemma_lookup_uid(fields.drop_first(), name);
    }
}

/// The uid `v` refers to (see [`value_uid`]).
pub fn value_to_uid(v: &QueryValue) -> (r: Option<u64>)
    ensures
        r == value_uid(v@),
    decreases v,
{
    match v {
        QueryValue::String(s) => parse_u64(s.as_str()),
        QueryValue::Int(n) => if *n >= 0 { Some(*n as u64) } else { None },
        QueryValue::Object(fields) => {
            proof {
                lemma_fields_view(fields@);
                lemma_lookup_uid(fields_view(fields@), "uid"@);
                lemma_lookup_uid(fields_view(fields@), "id"@);
            }
            let uid_key = String::from_str("uid");
            let id_key = String::from_str("id");
            proof {
                reveal_strlit("uid");
                reveal_strlit("id");
            }
            match find_field(fields, &uid_key) {
                Some(j) => {
                    proof {
                        assert(decreases_to!(*v => (*v)->Object_0));
                        assert(decreases_to!(*fields => fields@));
                        assert(decreases_to!(fields@ => fields@[j as int]));
                        assert(decreases_to!(fields@[j as int] => fields@[j as int].1));
                    }
                    value_to_uid(&fields[j].1)
                },
                None => match find_field(fields, &id_key) {
                    Some(j) => {
                        proof {
                            assert(decreases_to!(*v => (*v)->Object_0));
                            assert(decreases_to!(*fields => fields@));
                            assert(decreases_to!(fields@ => fields@[j as int]));
                            assert(decreases_to!(fields@[j as int] => fields@[j as int].1));
                        }
                        value_to_uid(&fields[j].1)
                    },
                    None => None,
                },
            }
        },
        _ => None,
    }
}

/// The uids of the list items that refer to an entity, in order.
pub open spec fn list_uids(items: Seq<ValueView>) -> Seq<u64>
    decreases items.len(),
{
    if items.len() == 0 {
        Seq::empty()
    } else {
        list_uids(items.drop_last()) + match value_uid(items.last()) {
            Some(c) => seq![c],
            None => Seq::empty(),
        }
    }
}

/// The entities a stored relation value points at: the one a decimal
/// string or a non-negative integer names, or those of a list's items
/// (see [`value_uid`]); none for anything else.
pub open spec fn related_uids(stored: Option<ValueView>) -> Seq<u64> {
    match stored {
        Some(ValueView::String(s)) => match parsed_u64(s) {
            Some(c) => seq![c],
            None => Seq::empty(),
        },
        Some(ValueView::Int(n)) => if n >= 0 { seq![n as u64] } else { Seq::empty() },
        Some(ValueView::List(items)) => list_uids(items),
        _ => Seq::empty(),
    }
}

/// Text-search operators, decided by their scan source rather than here.
pub open spec fn is_text_op(op: FilterOp) -> bool {
    op is AllOfTerms || op is AnyOfTerms || op is AllOfText || op is AnyOfText
}

/// Key of the condition object a predicate is checked with.
pub open spec fn condition_key(op: FilterOp) -> Seq<char> {
    match op {
        FilterOp::NearVector => "near"@,
        _ => op.name(),
    }
}

/// The condition object `{key: value}` a predicate is checked with.
pub open spec fn condition_object(op: FilterOp, value: ValueView) -> ValueView {
    ValueView::Object(seq![(condition_key(op), value)])
}

/// The field a one-segment path names.
pub open spec fn single_field(path: Seq<SegmentView>) -> Option<Seq<char>> {
    if path.len() == 1 {
        match path[0] {
            SegmentView::Field(name) => Some(name),
            SegmentView::Index(_) => None,
        }
    } else {
        None
    }
}

/// Whether entity `uid` passes one predicate: text predicates always pass;
/// a predicate on a one-field path passes when the runtime accepts the
/// stored value under the predicate's condition object; any other path
/// fails.
pub open spec fn predicate_holds<R: PlannerRuntime>(rt: &R, uid: u64, p: PredicateView) -> bool {
    if is_text_op(p.op) {
        true
    } else {
        match single_field(p.path) {
            Some(name) => rt.spec_eval_condition(
                rt.spec_stored_field(untyped_id(uid), name),
                condition_object(p.op, p.value),
            ),
            None => false,
        }
    }
}

/// Whether entity `uid` satisfies filter `f`: a conjunction needs every
/// part, a disjunction one part, a relation filter one related entity.
pub open spec fn filter_holds<R: PlannerRuntime>(rt: &R, uid: u64, f: FilterView) -> bool
    decreases f, 0int, 0int,
{
    match f {
        FilterView::And(parts) => all_hold(rt, uid, parts),
        FilterView::Or(parts) => any_holds(rt, uid, parts),
        FilterView::Not(inner) => !filter_holds(rt, uid, *inner),
        FilterView::Predicate(p) => predicate_holds(rt, uid, p),
        FilterView::Relation { field, target_type, filter } =>
            any_kid_holds(rt, related_uids(rt.spec_stored_field(untyped_id(uid), field)), *filter),
    }
}

/// Every filter of `parts` holds for `uid`.
pub open spec fn all_hold<R: PlannerRuntime>(rt: &R, uid: u64, parts: Seq<FilterView>) -> bool
    decreases parts, 0int, 0int,
{
    if parts.len() == 0 {
        true
    } else {
        all_hold(rt, uid, parts.drop_last()) && filter_holds(rt, uid, parts.last())
    }
}

/// Some filter of `parts` holds for `uid`.
pub open spec fn any_holds<R: PlannerRuntime>(rt: &R, uid: u64, parts: Seq<FilterView>) -> bool
    decreases parts, 0int, 0int,
{
    if parts.len() == 0 {
        false
    } else {
        any_holds(rt, uid, parts.drop_last()) || filter_holds(rt, uid, parts.last())
    }
}

/// `sub` holds for some entity of `kids`.
pub open spec fn any_kid_holds<R: PlannerRuntime>(rt: &R, kids: Seq<u64>, sub: FilterView) -> bool
    decreases sub, 1int, kids.len(),
{
    if kids.len() == 0 {
        false
    } else {
        any_kid_holds(rt, kids.drop_last(), sub) || filter_holds(rt, kids.last(), sub)
    }
}

/// A conjunction holds exactly when each part does.
pub proof fn lemma_all_hold<R: PlannerRuntime>(rt: &R, uid: u64, parts: Seq<FilterView>)
    ensures
        all_hold(rt, uid, parts) <==> forall|i: int| 0 <= i < parts.len() ==> filter_holds(rt, uid, #[trigger] parts[i]),
    decreases parts.len(),
{
    if parts.len() > 0 {
        lemma_all_hold(rt, uid, parts.drop_last());
        assert forall|i: int| 0 <= i < parts.len() - 1 implies #[trigger] parts.drop_last()[i] == parts[i] by {}
        if all_hold(rt, uid, parts) {
            assert forall|i: int| 0 <= i < parts.len() implies filter_holds(rt, uid, #[trigger] parts[i]) by {
                if i < parts.len() - 1 {
                    assert(parts.drop_last()[i] == parts[i]);
                }
            }
        }
        if forall|i: int| 0 <= i < parts.len() ==> filter_holds(rt, uid, #[trigger] parts[i]) {
            assert(filter_holds(rt, uid, parts[parts.len() - 1]));
            assert forall|i: int| 0 <= i < parts.len() - 1 implies filter_holds(rt, uid, #[trigger] parts.drop_last()[i]) by {
                assert(filter_holds(rt, uid, parts[i]));
            }
        }
    }
}

/// A disjunction holds exactly when some part does.
pub proof fn lemma_any_holds<R: PlannerRuntime>(rt: &R, uid: u64, parts: Seq<FilterView>)
    ensures
        any_holds(rt, uid, parts) <==> exists|i: int| 0 <= i < parts.len() && filter_holds(rt, uid, #[trigger] parts[i]),
    decreases parts.len(),
{
    if parts.len() > 0 {
        lemma_any_holds(rt, uid, parts.drop_last());
        if any_holds(rt, uid, parts.drop_last()) {
            let i = choose|i: int| 0 <= i < parts.len() - 1 && filter_holds(rt, uid, #[trigger] parts.drop_last()[i]);
            assert(parts.drop_last()[i] == parts[i]);
            assert(filter_holds(rt, uid, parts[i]));
        }
        if filter_holds(rt, uid, parts.last()) {
            assert(filter_holds(rt, uid, parts[parts.len() - 1]));
        }
        if exists|i: int| 0 <= i < parts.len() && filter_holds(rt, uid, #[trigger] parts[i]) {
            let i = choose|i: int| 0 <= i < parts.len() && filter_holds(rt, uid, #[trigger] parts[i]);
            if i < parts.len() - 1 {
                assert(parts.drop_last()[i] == parts[i]);
                assert(filter_holds(rt, uid, parts.drop_last()[i]));
            }
        }
    }
}

/// A relation filter holds exactly when the sub-filter holds for one of
/// the related entities.
pub proof fn lemma_any_kid_holds<R: PlannerRuntime>(rt: &R, kids: Seq<u64>, sub: FilterView)
    ensures
        any_kid_holds(rt, kids, sub) <==> exists|i: int| 0 <= i < kids.len() && filter_holds(rt, #[trigger] kids[i], sub),
    decreases kids.len(),
{
    if kids.len() > 0 {
        lemma_any_kid_holds(rt, kids.drop_last(), sub);
        if any_kid_holds(rt, kids.drop_last(), sub) {
            let i = choose|i: int| 0 <= i < kids.len() - 1 && filter_holds(rt, #[trigger] kids.drop_last()[i], sub);
            assert(kids.drop_last()[i] == kids[i]);
            assert(filter_holds(rt, kids[i], sub));
        }
        if filter_holds(rt, kids.last(), sub) {
            assert(filter_holds(rt, kids[kids.len() - 1], sub));
        }
        if exists|i: int| 0 <= i < kids.len() && filter_holds(rt, #[trigger] kids[i], sub) {
            let i = choose|i: int| 0 <= i < kids.len() && filter_holds(rt, #[trigger] kids[i], sub);
            if i < kids.len() - 1 {
                assert(kids.drop_last()[i] == kids[i]);
                assert(filter_holds(rt, kids.drop_last()[i], sub));
            }
        }
    }
}

/// The uids of the items of `items` that refer to an entity, in order.
fn list_item_uids(items: &Vec<QueryValue>) -> (r: Vec<u64>)
    ensures
        r@ == list_uids(list_view(items@)),
{
    proof {
        lemma_list_view(items@);
    }
    let ghost lv = list_view(items@);
    let mut out: Vec<u64> = Vec::new();
    let mut i: usize = 0;
    while i < items.len()
        invariant
            i <= items@.len(),
            lv == list_view(items@),
            lv.len() == items@.len(),
            forall|j: int| 0 <= j < items@.len() ==> #[trigger] lv[j] == items@[j]@,
            out@ == list_uids(lv.take(i as int)),
        decreases items@.len() - i,
    {
        proof {
            assert(lv.take(i as int + 1).drop_last() =~= lv.take(i as int));
            assert(lv.take(i as int + 1).last() == items@[i as int]@);
        }
        match value_to_uid(&items[i]) {
            Some(c) => {
                let ghost before = out@;
                out.push(c);
                proof {
                    assert(out@ =~= before + seq![c]);
                }
            },
            None => {
                proof {
                    assert(out@ =~= out@ + Seq::<u64>::empty());
                }
            },
        }
        i = i + 1;
    }
    proof {
        assert(lv.take(items@.len() as int) =~= lv);
    }
    out
}

/// The entities a stored relation value points at (see [`related_uids`]).
pub fn stored_uids(stored: &Option<QueryValue>) -> (r: Vec<u64>)
    ensures
        r@ == related_uids(stored_view(*stored)),
{
    let mut out: Vec<u64> = Vec::new();
    match stored {
        Some(QueryValue::String(s)) => {
            if let Some(c) = parse_u64(s.as_str()) {
                out.push(c);
            }
        },
        Some(QueryValue::Int(n)) => {
            if *n >= 0 {
                out.push(*n as u64);
            }
        },
        Some(QueryValue::List(items)) => {
            return list_item_uids(items);
        },
        _ => {},
    }
    proof {
        assert(out@ =~= related_uids(stored_view(*stored)));
    }
    out
}

/// The condition key of `op` (see [`condition_key`]).
fn condition_key_str(op: FilterOp) -> (s: &'static str)
    ensures
        s@ == condition_key(op),
{
    match op {
        FilterOp::NearVector => "near",
        _ => op.as_str(),
    }
}

/// Whether entity `uid` passes predicate `pred` (see [`predicate_holds`]).
fn predicate_passes<R: PlannerRuntime>(rt: &R, uid: u64, pred: &FilterPredicate) -> (b: bool)
    ensures
        b == predicate_holds(rt, uid, predicate_view(*pred)),
{
    match pred.op {
        FilterOp::AllOfTerms | FilterOp::AnyOfTerms | FilterOp::AllOfText | FilterOp::AnyOfText => {
            return true;
        },
        _ => {},
    }
    match pred.path.single() {
        Some(field) => {
            let stored = rt.stored_field(&EntityId::new(uid), field);
            let mut entries: Vec<(String, QueryValue)> = Vec::new();
            entries.push((String::from_str(condition_key_str(pred.op)), copy_value(&pred.value)));
            let condition = QueryValue::Object(entries);
            proof {
                lemma_fields_view(entries@);
                assert(fields_view(entries@) =~= seq![(condition_key(pred.op), pred.value@)]);
                assert(single_field(path_view(pred.path)) == Some(field@));
            }
            rt.eval_condition(&stored, &condition)
        },
        None => {
            proof {
                assert(single_field(path_view(pred.path)) is None);
            }
            false
        },
    }
}

/// Whether entity `uid` satisfies `filter` (see [`filter_holds`]).
fn holds<R: PlannerRuntime>(rt: &R, uid: u64, filter: &LogicalFilter) -> (b: bool)
    ensures
        b == filter_holds(rt, uid, filter@),
    decreases filter,
{
    match filter {
        LogicalFilter::And(parts) => {
            proof {
                lemma_filters_view(parts@);
            }
            let mut i: usize = 0;
            while i < parts.len()
                invariant
                    *filter == LogicalFilter::And(*parts),
                    i <= parts@.len(),
                    filters_view(parts@).len() == parts@.len(),
                    forall|j: int| 0 <= j < parts@.len() ==> #[trigger] filters_view(parts@)[j] == parts@[j]@,
                    forall|j: int| 0 <= j < i ==> filter_holds(rt, uid, #[trigger] filters_view(parts@)[j]),
                decreases parts@.len() - i,
            {
                proof {
                    assert(decreases_to!(*filter => (*filter)->And_0));
                    assert(decreases_to!(*parts => parts@));
                    assert(decreases_to!(parts@ => parts@[i as int]));
                }
                if !holds(rt, uid, &parts[i]) {
                    proof {
                        assert(filters_view(parts@)[i as int] == parts@[i as int]@);
                        lemma_all_hold(rt, uid, filters_view(parts@));
                    }
                    return false;
                }
                i = i + 1;
            }
            proof {
                lemma_all_hold(rt, uid, filters_view(parts@));
            }
            true
        },
        LogicalFilter::Or(parts) => {
            proof {
                lemma_filters_view(parts@);
            }
            let mut i: usize = 0;
            while i < parts.len()
                invariant
                    *filter == LogicalFilter::Or(*parts),
                    i <= parts@.len(),
                    filters_view(parts@).len() == parts@.len(),
                    forall|j: int| 0 <= j < parts@.len() ==> #[trigger] filters_view(parts@)[j] == parts@[j]@,
                    forall|j: int| 0 <= j < i ==> !filter_holds(rt, uid, #[trigger] filters_view(parts@)[j]),
                decreases parts@.len() - i,
            {
                proof {
                    assert(decreases_to!(*filter => (*filter)->Or_0));
                    assert(decreases_to!(*parts => parts@));
                    assert(decreases_to!(parts@ => parts@[i as int]));
                }
                if holds(rt, uid, &parts[i]) {
                    proof {
                        assert(filters_view(parts@)[i as int] == parts@[i as int]@);
                        assert(filter_holds(rt, uid, filters_view(parts@)[i as int]));
                        lemma_any_holds(rt, uid, filters_view(parts@));
                    }
                    return true;
                }
                i = i + 1;
            }
            proof {
                lemma_any_holds(rt, uid, filters_view(parts@));
            }
            false
        },
        LogicalFilter::Not(inner) => !holds(rt, uid, inner),
        LogicalFilter::Predicate(pred) => predicate_passes(rt, uid, pred),
        LogicalFilter::Relation { field, target_type, filter: sub } => {
            let id = EntityId::new(uid);
            let stored = rt.stored_field(&id, field.as_str());
            let kids = stored_uids(&stored);
            proof {
                assert(id == untyped_id(uid));
                assert(filter@ == (FilterView::Relation { field: field@, target_type: target_type@, filter: Box::new((**sub)@) }));
                assert(kids@ == related_uids(rt.spec_stored_field(untyped_id(uid), field@)));
            }
            let mut i: usize = 0;
            while i < kids.len()
                invariant
                    *filter == (LogicalFilter::Relation { field: *field, target_type: *target_type, filter: *sub }),
                    kids@ == related_uids(rt.spec_stored_field(untyped_id(uid), field@)),
                    i <= kids@.len(),
                    forall|j: int| 0 <= j < i ==> !filter_holds(rt, #[trigger] kids@[j], (**sub)@),
                decreases kids@.len() - i,
            {
                proof {
                    assert(decreases_to!(*filter => (*filter)->filter));
                }
                if holds(rt, kids[i], sub) {
                    proof {
                        assert(filter_holds(rt, kids@[i as int], (**sub)@));
                        lemma_any_kid_holds(rt, kids@, (**sub)@);
                    }
                    return true;
                }
                i = i + 1;
            }
            proof {
                lemma_any_kid_holds(rt, kids@, (**sub)@);
            }
            false
        },
    }
}

/// Number of leaf conditions in a filter; a relation filter counts itself
/// and the conditions under it.
pub open spec fn condition_count(f: FilterView) -> nat
    decreases f, 1int,
{
    match f {
        FilterView::And(parts) => parts_count(parts),
        FilterView::Or(parts) => parts_count(parts),
        FilterView::Not(inner) => condition_count(*inner),
        FilterView::Predicate(_) => 1,
        FilterView::Relation { field, target_type, filter } => 1 + condition_count(*filter),
    }
}

pub open spec fn parts_count(parts: Seq<FilterView>) -> nat
    decreases parts, 0int,
{
    if parts.len() == 0 {
        0
    } else {
        parts_count(parts.drop_last()) + condition_count(parts.last())
    }
}

/// `n`, saturated at `usize::MAX`.
pub open spec fn capped(n: nat) -> nat {
    if n > usize::MAX { usize::MAX as nat } else { n }
}

/// Number of leaf conditions in `filter` (saturating).
pub fn count_conditions(filter: &LogicalFilter) -> (n: usize)
    ensures
        n == capped(condition_count(filter@)),
    decreases filter,
{
    match filter {
        LogicalFilter::And(parts) | LogicalFilter::Or(parts) => {
            proof {
                lemma_filters_view(parts@);
            }
            let ghost fv = filters_view(parts@);
            let mut acc: usize = 0;
            let mut i: usize = 0;
            while i < parts.len()
                invariant
                    *filter == LogicalFilter::And(*parts) || *filter == LogicalFilter::Or(*parts),
                    fv == filters_view(parts@),
                    fv.len() == parts@.len(),
                    forall|j: int| 0 <= j < parts@.len() ==> #[trigger] fv[j] == parts@[j]@,
                    i <= parts@.len(),
                    acc == capped(parts_count(fv.take(i as int))),
                decreases parts@.len() - i,
            {
                proof {
                    if *filter == LogicalFilter::And(*parts) {
                        assert(decreases_to!(*filter => (*filter)->And_0));
                    } else {
                        assert(decreases_to!(*filter => (*filter)->Or_0));
                    }
                    assert(decreases_to!(*parts => parts@));
                    assert(decreases_to!(parts@ => parts@[i as int]));
                    assert(fv.take(i as int + 1).drop_last() =~= fv.take(i as int));
                    assert(fv.take(i as int + 1).last() == parts@[i as int]@);
                }
                let c = count_conditions(&parts[i]);
                acc = acc.saturating_add(c);
                i = i + 1;
            }
            proof {
                assert(fv.take(parts@.len() as int) =~= fv);
            }
            acc
        },
        LogicalFilter::Not(inner) => count_conditions(inner),
        LogicalFilter::Predicate(_) => 1,
        LogicalFilter::Relation { filter: sub, .. } => {
            let c = count_conditions(sub);
            c.saturating_add(1)
        },
    }
}

/// A path with the same segments as `path`.
fn copy_path(path: &FieldPath) -> (r: FieldPath)
    ensures
        path_view(r) == path_view(*path),
{
    let mut segments: Vec<FieldSegment> = Vec::new();
    let mut i: usize = 0;
    while i < path.segments.len()
        invariant
            i <= path.segments@.len(),
            segments@.len() == i,
            forall|j: int| 0 <= j < i ==> crate::query_planner::ir::segment_view(#[trigger] segments@[j])
                == crate::query_planner::ir::segment_view(path.segments@[j]),
        decreases path.segments@.len() - i,
    {
        let seg = match &path.segments[i] {
            FieldSegment::Field(name) => FieldSegment::Field(name.clone()),
            FieldSegment::Index(k) => FieldSegment::Index(*k),
        };
        segments.push(seg);
        i = i + 1;
    }
    let r = FieldPath { segments };
    proof {
        assert(path_view(r) =~= path_view(*path));
    }
    r
}

/// A filter with the same content as `filter`.
pub(crate) fn copy_filter(filter: &LogicalFilter) -> (r: LogicalFilter)
    ensures
        r@ == filter@,
    decreases filter,
{
    match filter {
        LogicalFilter::And(parts) | LogicalFilter::Or(parts) => {
            proof {
                lemma_filters_view(parts@);
            }
            let mut out: Vec<LogicalFilter> = Vec::new();
            let mut i: usize = 0;
            while i < parts.len()
                invariant
                    *filter == LogicalFilter::And(*parts) || *filter == LogicalFilter::Or(*parts),
                    i <= parts@.len(),
                    out@.len() == i,
                    forall|j: int| 0 <= j < i ==> (#[trigger] out@[j])@ == parts@[j]@,
                decreases parts@.len() - i,
            {
                proof {
                    if *filter == LogicalFilter::And(*parts) {
                        assert(decreases_to!(*filter => (*filter)->And_0));
                    } else {
                        assert(decreases_to!(*filter => (*filter)->Or_0));
                    }
                    assert(decreases_to!(*parts => parts@));
                    assert(decreases_to!(parts@ => parts@[i as int]));
                }
                let c = copy_filter(&parts[i]);
                out.push(c);
                i = i + 1;
            }
            proof {
                lemma_filters_view(out@);
                assert(filters_view(out@) =~= filters_view(parts@));
            }
            match filter {
                LogicalFilter::And(_) => LogicalFilter::And(out),
                _ => LogicalFilter::Or(out),
            }
        },
        LogicalFilter::Not(inner) => LogicalFilter::Not(Box::new(copy_filter(inner))),
        LogicalFilter::Predicate(p) => LogicalFilter::Predicate(FilterPredicate {
            path: copy_path(&p.path),
            op: p.op,
            value: copy_value(&p.value),
        }),
        LogicalFilter::Relation { field, target_type, filter: sub } => LogicalFilter::Relation {
            field: field.clone(),
            target_type: target_type.clone(),
            filter: Box::new(copy_filter(sub)),
        },
    }
}

/// A filter ready for row evaluation. Every node of a logical filter is
/// evaluated as it stands, so the compiled tree is the logical one.
pub type CompiledFilter = LogicalFilter;

/// Compiles a logical filter for row evaluation; this always succeeds and
/// yields a tree with the same content.
pub fn compile_filter(filter: &LogicalFilter) -> (r: Result<CompiledFilter, ExprError>)
    ensures
        r matches Ok(c) && c@ == filter@,
{
    Ok(copy_filter(filter))
}

/// Whether entity `uid` satisfies `filter` against the context's runtime.
pub fn eval_compiled<R: PlannerRuntime>(ctx: &ExecContext<R>, uid: u64, filter: &CompiledFilter) -> (b: bool)
    ensures
        b == filter_holds(ctx.spec_runtime(), uid, filter@),
{
    holds(ctx.runtime(), uid, filter)
}

/// The rows of `rows` whose entity satisfies `f`, in order.
pub open spec fn kept_rows<R: PlannerRuntime>(rt: &R, rows: Seq<EntityId>, f: FilterView) -> Seq<EntityId>
    decreases rows.len(),
{
    if rows.len() == 0 {
        Seq::empty()
    } else {
        let prev = kept_rows(rt, rows.drop_last(), f);
        if filter_holds(rt, rows.last().uid, f) { prev.push(rows.last()) } else { prev }
    }
}

/// Each batch narrowed to the rows satisfying `f`; batches left empty are
/// dropped.
pub open spec fn filtered_batches<R: PlannerRuntime>(rt: &R, batches: Seq<Seq<EntityId>>, f: FilterView) -> Seq<Seq<EntityId>>
    decreases batches.len(),
{
    if batches.len() == 0 {
        Seq::empty()
    } else {
        let prev = filtered_batches(rt, batches.drop_last(), f);
        let k = kept_rows(rt, batches.last(), f);
        if k.len() > 0 { prev.push(k) } else { prev }
    }
}

/// Keeps the rows of its input whose entity satisfies the filter. Rows keep
/// their order and can only drop out, so the declared ordering and bound
/// are the input's.
pub struct FilterOperator {
    pub input: Box<Operator>,
    pub filter: CompiledFilter,
}

impl FilterOperator {
    pub fn new(input: Box<Operator>, filter: LogicalFilter) -> (r: Self)
        ensures
            r.input == input,
            r.filter == filter,
    {
        FilterOperator { input, filter }
    }

    pub fn boxed(input: Box<Operator>, filter: LogicalFilter) -> (r: Box<Operator>)
        ensures
            *r == Operator::Filter((FilterOperator { input, filter })),
    {
        Box::new(Operator::Filter(FilterOperator { input, filter }))
    }

    /// Builds the operator over a compiled copy of `filter`; compiling
    /// never fails, so this is always `Ok`.
    pub fn try_boxed(input: Box<Operator>, filter: LogicalFilter) -> (r: Result<Box<Operator>, ExprError>)
        ensures
            r matches Ok(b) && (*b matches Operator::Filter(f) && f.input == input && f.filter@ == filter@),
    {
        match compile_filter(&filter) {
            Ok(compiled) => Ok(Box::new(Operator::Filter(FilterOperator { input, filter: compiled }))),
            Err(e) => Err(e),
        }
    }

    pub fn kind(&self) -> (k: OperatorKind)
        ensures
            k == OperatorKind::Filter,
    {
        OperatorKind::Filter
    }

    /// The explain detail line.
    pub open spec fn describe(self) -> Seq<char> {
        "residual("@ + decimal(capped(condition_count(self.filter@))) + " conditions)"@
    }

    pub fn detail(&self) -> (s: String)
        ensures
            s@ == self.describe(),
    {
        let n = count_conditions(&self.filter);
        concat_num("residual(", n as u64, " conditions)")
    }

    pub fn cardinality(&self) -> (c: CardinalityHint)
        ensures
            c == self.input.spec_cardinality(),
        decreases self,
    {
        self.input.cardinality()
    }

    pub fn output_ordering(&self) -> (o: OutputOrdering)
        ensures
            o == self.input.spec_ordering(),
        decreases self,
    {
        self.input.output_ordering()
    }

    pub fn execute<R: PlannerRuntime>(&self, ctx: &mut ExecContext<R>) -> (r: FlowResult<Vec<RowBatch>>)
        ensures
            flow_of(r) == Operator::Filter(*self).spec_execute(old(ctx).spec_runtime(), old(ctx).spec_depth()),
            context_extends(*old(ctx), *final(ctx)),
        decreases self,
    {
        let start = clock_now();
        let batches = match self.input.execute(ctx) {
            FlowResult::Rows(b) => b,
            FlowResult::Break => return FlowResult::Break,
            FlowResult::Continue => return FlowResult::Continue,
            FlowResult::Error(e) => return FlowResult::Error(e),
        };
        let ghost rt = ctx.spec_runtime();
        let ghost fv = self.filter@;
        let ghost bv = batches_view(batches@);
        let mut kept: Vec<RowBatch> = Vec::new();
        let mut rows_in: usize = 0;
        let mut rows_out: usize = 0;
        let mut i: usize = 0;
        proof {
            assert(batches_view(kept@) =~= filtered_batches(rt, bv.take(0), fv));
        }
        while i < batches.len()
            invariant
                i <= batches@.len(),
                bv == batches_view(batches@),
                rt == ctx.spec_runtime(),
                fv == self.filter@,
                batches_view(kept@) == filtered_batches(rt, bv.take(i as int), fv),
            decreases batches@.len() - i,
        {
            let batch = &batches[i].0;
            rows_in = rows_in.saturating_add(batch.len());
            let mut remaining: Vec<EntityId> = Vec::new();
            let mut j: usize = 0;
            proof {
                assert(bv[i as int] == batch@);
                assert(batch@.take(0) =~= Seq::<EntityId>::empty());
            }
            while j < batch.len()
                invariant
                    j <= batch@.len(),
                    rt == ctx.spec_runtime(),
                    fv == self.filter@,
                    remaining@ == kept_rows(rt, batch@.take(j as int), fv),
                decreases batch@.len() - j,
            {
                proof {
                    assert(batch@.take(j as int + 1).drop_last() =~= batch@.take(j as int));
                    assert(batch@.take(j as int + 1).last() == batch@[j as int]);
                }
                if eval_compiled(ctx, batch[j].uid, &self.filter) {
                    remaining.push(batch[j].duplicate());
                }
                j = j + 1;
            }
            proof {
                assert(batch@.take(batch@.len() as int) =~= batch@);
                assert(bv.take(i as int + 1).drop_last() =~= bv.take(i as int));
                assert(bv.take(i as int + 1).last() == batch@);
            }
            rows_out = rows_out.saturating_add(remaining.len());
            if remaining.len() > 0 {
                let ghost before = kept@;
                let ghost rv = remaining@;
                kept.push(RowBatch(remaining));
                proof {
                    assert(batches_view(kept@) =~= batches_view(before).push(rv));
                }
            }
            i = i + 1;
        }
        proof {
            assert(bv.take(batches@.len() as int) =~= bv);
        }
        let n = count_conditions(&self.filter);
        let mut notes: Vec<String> = Vec::new();
        notes.push(concat_num("residual conditions: ", n as u64, ""));
        ctx.record(make_stat("filter", self.detail(), rows_in, rows_out, &start, notes));
        FlowResult::Rows(kept)
    }
}

/// The rows of `rows` whose entity satisfies `f` are exactly an order-preserving
/// filter of `rows`.
proof fn lemma_kept_rows_filter<R: PlannerRuntime>(rt: &R, rows: Seq<EntityId>, f: FilterView)
    ensures
        kept_rows(rt, rows, f) == rows.filter(|e: EntityId| filter_holds(rt, e.uid, f)),
    decreases rows.len(),
{
    reveal(Seq::filter);
    if rows.len() > 0 {
        lemma_kept_rows_filter(rt, rows.drop_last(), f);
    }
}

/// Filtering keeps the input's rows in their order and only drops rows: the
/// output rows are the input rows whose entity satisfies the filter, every
/// output batch is non-empty, and there are never more output rows than
/// input rows.
pub proof fn lemma_filter_keeps_order<R: PlannerRuntime>(rt: &R, batches: Seq<Seq<EntityId>>, f: FilterView)
    ensures
        filtered_batches(rt, batches, f).flatten() == batches.flatten().filter(|e: EntityId| filter_holds(rt, e.uid, f)),
        filtered_batches(rt, batches, f).flatten().len() <= batches.flatten().len(),
        forall|i: int| 0 <= i < filtered_batches(rt, batches, f).len() ==> #[trigger] filtered_batches(rt, batches, f)[i].len() > 0,
        forall|i: int| 0 <= i < filtered_batches(rt, batches, f).flatten().len()
            ==> filter_holds(rt, (#[trigger] filtered_batches(rt, batches, f).flatten()[i]).uid, f),
    decreases batches.len(),
{
    let pred = |e: EntityId| filter_holds(rt, e.uid, f);
    reveal(Seq::filter);
    if batches.len() > 0 {
        let init = batches.drop_last();
        let last = batches.last();
        lemma_filter_keeps_order(rt, init, f);
        lemma_kept_rows_filter(rt, last, f);
        init.lemma_flatten_push(last);
        assert(init.push(last) =~= batches);
        Seq::filter_distributes_over_add(init.flatten(), last, pred);
        let prev = filtered_batches(rt, init, f);
        let k = kept_rows(rt, last, f);
        if k.len() > 0 {
            prev.lemma_flatten_push(k);
        } else {
            assert(prev.flatten() + k =~= prev.flatten());
        }
    }
    let out = filtered_batches(rt, batches, f).flatten();
    batches.flatten().lemma_filter_len(pred);
    assert forall|i: int| 0 <= i < out.len() implies filter_holds(rt, (#[trigger] out[i]).uid, f) by {
        batches.flatten().lemma_filter_pred(pred, i);
    }
}

} // verus!
