//! Candidate planning: picks, for each entry of a filter argument, the
//! access path that narrows the candidate rows, combines them, and keeps
//! the lowered filter as the residual every row must still pass.
//!
//! Entries are visited in ascending key order. An equality on a unique
//! field becomes a unique-index lookup; other comparisons, `contains` on a
//! string, and scalar equalities push down to storage; text operators use
//! the term or full-text index; geo conditions stay residual; and a nested
//! filter on a relation field with a known inverse edge plans the related
//! type and follows the inverse edge back. A relation filter answered that
//! way is dropped from the top-level residual.
use vstd::prelude::*;
use crate::query_planner::context::{
    find_inverse, find_meta, find_relation, inverse_of, meta_of, relation_target, uniques_of,
    PlanContext, QueryTypeMetadata,
};
use crate::query_planner::ir::{
    fields_view, filters_view, lemma_fields_view, lemma_filters_view, FieldPath, FilterOp,
    FilterPredicate, FilterView, LogicalFilter, PredicateView, QueryValue, SegmentView, ValueView,
};
use crate::query_planner::lowering::{canonical, canonical_fields, lower_filter_map, lower_map, op_for_key};
use crate::query_planner::physical_expr::{copy_fields, copy_value, field_value, find_field};
use crate::query_planner::plan::{
    lemma_plans_view, note_view, notes_view, plans_view, residual_view, source_view, texts_view,
    AccessPathNote, CandidatePlan, CandidateSource, NoteView, PlanView, SourceView,
};

verus! {

/// A note with the given kind and detail.
pub open spec fn note(kind: Seq<char>, detail: Seq<char>) -> NoteView {
    NoteView { kind, detail }
}

/// A storage pushdown of `field op value`.
pub open spec fn pushdown(field: Seq<char>, op: FilterOp, value: ValueView) -> SourceView {
    SourceView::PredicatePushdown(PredicateView { path: seq![SegmentView::Field(field)], op, value })
}

/// Pushdown comparison keys, in the order they are tried.
pub open spec fn pushdown_key(i: int) -> Seq<char> {
    if i == 0 { "gt"@ } else if i == 1 { "ge"@ } else if i == 2 { "lt"@ } else if i == 3 { "le"@ } else if i == 4 { "ne"@ } else { "in"@ }
}

pub open spec fn pushdown_op(i: int) -> FilterOp {
    if i == 0 { FilterOp::Gt } else if i == 1 { FilterOp::Ge } else if i == 2 { FilterOp::Lt } else if i == 3 { FilterOp::Le } else if i == 4 { FilterOp::Ne } else { FilterOp::In }
}


/// Each pushdown key pushes down the operator it names: the operator's wire
/// name is the key, and it is the operator the same key lowers to in the
/// residual filter.
pub proof fn lemma_pushdown_ops_named_by_keys(i: int)
    requires
        0 <= i < 6,
    ensures
        pushdown_op(i).name() == pushdown_key(i),
        op_for_key(pushdown_key(i)) == Some(pushdown_op(i)),
{
    reveal_strlit("eq");
    reveal_strlit("ne");
    reveal_strlit("gt");
    reveal_strlit("ge");
    reveal_strlit("lt");
    reveal_strlit("le");
    reveal_strlit("in");
    assert("ne"@ != "eq"@) by { assert("ne"@[0] != "eq"@[0]); }
    assert("gt"@ != "eq"@) by { assert("gt"@[0] != "eq"@[0]); }
    assert("gt"@ != "ne"@) by { assert("gt"@[0] != "ne"@[0]); }
    assert("ge"@ != "eq"@) by { assert("ge"@[0] != "eq"@[0]); }
    assert("ge"@ != "ne"@) by { assert("ge"@[0] != "ne"@[0]); }
    assert("ge"@ != "gt"@) by { assert("ge"@[1] != "gt"@[1]); }
    assert("lt"@ != "eq"@) by { assert("lt"@[0] != "eq"@[0]); }
    assert("lt"@ != "ne"@) by { assert("lt"@[0] != "ne"@[0]); }
    assert("lt"@ != "gt"@) by { assert("lt"@[0] != "gt"@[0]); }
    assert("lt"@ != "ge"@) by { assert("lt"@[0] != "ge"@[0]); }
    assert("le"@ != "eq"@) by { assert("le"@[0] != "eq"@[0]); }
    assert("le"@ != "ne"@) by { assert("le"@[0] != "ne"@[0]); }
    assert("le"@ != "gt"@) by { assert("le"@[0] != "gt"@[0]); }
    assert("le"@ != "ge"@) by { assert("le"@[0] != "ge"@[0]); }
    assert("le"@ != "lt"@) by { assert("le"@[1] != "lt"@[1]); }
    assert("in"@ != "eq"@) by { assert("in"@[0] != "eq"@[0]); }
    assert("in"@ != "ne"@) by { assert("in"@[0] != "ne"@[0]); }
    assert("in"@ != "gt"@) by { assert("in"@[0] != "gt"@[0]); }
    assert("in"@ != "ge"@) by { assert("in"@[0] != "ge"@[0]); }
    assert("in"@ != "lt"@) by { assert("in"@[0] != "lt"@[0]); }
    assert("in"@ != "le"@) by { assert("in"@[0] != "le"@[0]); }
}

/// A pushdown chosen for a condition carries the operator of the key it
/// was found under, with that key's value, on the condition's field; its
/// note names the same key.
pub proof fn lemma_pushdown_answers_its_key(field: Seq<char>, map: Seq<(Seq<char>, ValueView)>, i: int)
    ensures
        pushdown_from(field, map, i) matches Some((s, n)) ==> {
            &&& s matches SourceView::PredicatePushdown(p)
            &&& p.path == seq![SegmentView::Field(field)]
            &&& field_value(map, p.op.name()) == Some(p.value)
            &&& op_for_key(p.op.name()) == Some(p.op)
            &&& n.detail == "`"@ + field + " "@ + p.op.name() + "` -> sql pushdown"@
        },
    decreases 6 - i,
{
    if 0 <= i < 6 {
        lemma_pushdown_ops_named_by_keys(i);
        if field_value(map, pushdown_key(i)) is None {
            lemma_pushdown_answers_its_key(field, map, i + 1);
        }
    }
}

/// Text keys, in the order they are tried; the last two use the full-text
/// index.
pub open spec fn text_key(i: int) -> Seq<char> {
    if i == 0 { "allofterms"@ } else if i == 1 { "anyofterms"@ } else if i == 2 { "alloftext"@ } else { "anyoftext"@ }
}

pub open spec fn text_op_at(i: int) -> FilterOp {
    if i == 0 { FilterOp::AllOfTerms } else if i == 1 { FilterOp::AnyOfTerms } else if i == 2 { FilterOp::AllOfText } else { FilterOp::AnyOfText }
}


/// Each text key looks up the index operator it names: the operator's wire
/// name is the key, and it is the operator the same key lowers to.
pub proof fn lemma_text_ops_named_by_keys(i: int)
    requires
        0 <= i < 4,
    ensures
        text_op_at(i).name() == text_key(i),
        op_for_key(text_key(i)) == Some(text_op_at(i)),
{
    reveal_strlit("allofterms");
    reveal_strlit("anyofterms");
    reveal_strlit("alloftext");
    reveal_strlit("anyoftext");
    crate::query_planner::lowering::lemma_operator_keys(text_key(i));
    assert(crate::query_planner::lowering::client_key(text_op_at(i)) == text_key(i));
}

/// The first pushdown comparison of the condition, from key `i` on.
pub open spec fn pushdown_from(field: Seq<char>, map: Seq<(Seq<char>, ValueView)>, i: int) -> Option<(SourceView, NoteView)>
    decreases 6 - i,
{
    if i < 0 || i >= 6 {
        None
    } else {
        match field_value(map, pushdown_key(i)) {
            Some(v) => Some((
                pushdown(field, pushdown_op(i), v),
                note("sql_pushdown"@, "`"@ + field + " "@ + pushdown_key(i) + "` -> sql pushdown"@),
            )),
            None => pushdown_from(field, map, i + 1),
        }
    }
}

/// The first text-index lookup of the condition, from key `i` on.
pub open spec fn text_from(field: Seq<char>, map: Seq<(Seq<char>, ValueView)>, i: int) -> Option<(SourceView, NoteView)>
    decreases 4 - i,
{
    if i < 0 || i >= 4 {
        None
    } else {
        match field_value(map, text_key(i)) {
            Some(ValueView::String(q)) => Some((
                SourceView::TextIndex { field, op: text_op_at(i), query: q },
                note(if i >= 2 { "fulltext_index"@ } else { "term_index"@ }, "`"@ + field + " "@ + text_key(i) + "` -> term index lookup"@),
            )),
            _ => text_from(field, map, i + 1),
        }
    }
}

/// Whether the condition holds a geo key, which stays residual.
pub open spec fn has_geo_key(map: Seq<(Seq<char>, ValueView)>) -> bool {
    field_value(map, "near"@) is Some || field_value(map, "within"@) is Some || field_value(map, "intersects"@) is Some
}

/// The access path one filter entry yields, if any.
pub open spec fn entry_choice(
    catalog: Seq<(String, QueryTypeMetadata)>,
    type_label: Seq<char>,
    uniques: Seq<Seq<char>>,
    field: Seq<char>,
    cond: ValueView,
) -> Option<(SourceView, NoteView)>
    decreases cond, 2int,
{
    if field == "and"@ || field == "or"@ || field == "not"@ {
        None
    } else {
        match cond {
            ValueView::Object(map) => object_choice(catalog, type_label, uniques, field, cond),
            scalar => if uniques.contains(field) {
                Some((
                    SourceView::UniqueLookup { field, value: scalar },
                    note("unique_index"@, "unique scalar equality `"@ + field + "` -> unique index"@),
                ))
            } else {
                Some((
                    pushdown(field, FilterOp::Eq, scalar),
                    note("sql_pushdown"@, "scalar equality `"@ + field + "` -> sql pushdown"@),
                ))
            },
        }
    }
}

/// The access path an operator object yields: equality (unique lookup or
/// pushdown), then pushdown comparisons, `contains` on a string, text
/// operators; geo conditions yield none; otherwise a relation expansion.
pub open spec fn object_choice(
    catalog: Seq<(String, QueryTypeMetadata)>,
    type_label: Seq<char>,
    uniques: Seq<Seq<char>>,
    field: Seq<char>,
    cond: ValueView,
) -> Option<(SourceView, NoteView)>
    decreases cond, 1int,
{
    match cond {
        ValueView::Object(map) => match field_value(map, "eq"@) {
            Some(v) => if uniques.contains(field) {
                Some((
                    SourceView::UniqueLookup { field, value: v },
                    note("unique_index"@, "unique equality `"@ + field + "` -> unique index lookup (miss yields empty result)"@),
                ))
            } else {
                Some((pushdown(field, FilterOp::Eq, v), note("sql_pushdown"@, "equality `"@ + field + "` -> sql pushdown"@)))
            },
            None => match pushdown_from(field, map, 0) {
                Some(c) => Some(c),
                None => match field_value(map, "contains"@) {
                    Some(ValueView::String(sub)) => Some((
                        pushdown(field, FilterOp::Contains, ValueView::String(sub)),
                        note("sql_pushdown"@, "contains `"@ + field + "` -> sql pushdown"@),
                    )),
                    _ => match text_from(field, map, 0) {
                        Some(c) => Some(c),
                        None => if has_geo_key(map) {
                            None
                        } else {
                            match meta_of(catalog, type_label) {
                                Some(meta) => match (relation_target(meta.relations@, field), inverse_of(meta.inverses@, field)) {
                                    (Some(target), Some(inverse)) => {
                                        let child_uniques = uniques_of(catalog, target);
                                        Some((
                                            SourceView::RelationExpansion {
                                                field,
                                                target_type: target,
                                                child_plan: Box::new(plan_of(catalog, target, child_uniques, map)),
                                                inverse_field: inverse,
                                                child_raw_filter: Some(map),
                                                child_uniques,
                                            },
                                            note(
                                                "relation_expansion"@,
                                                "nested filter on relation `"@ + field + "` -> plan children of "@ + target
                                                    + " then expand inverse `"@ + inverse + "`"@,
                                            ),
                                        ))
                                    },
                                    _ => None,
                                },
                                None => None,
                            }
                        },
                    },
                },
            },
        },
        _ => None,
    }
}

/// The access paths of the entries, in order, skipping entries that yield
/// none.
pub open spec fn entry_choices(
    catalog: Seq<(String, QueryTypeMetadata)>,
    type_label: Seq<char>,
    uniques: Seq<Seq<char>>,
    entries: Seq<(Seq<char>, ValueView)>,
) -> Seq<(SourceView, NoteView)>
    decreases entries, 3int,
{
    if entries.len() == 0 {
        Seq::empty()
    } else {
        entry_choices(catalog, type_label, uniques, entries.drop_last()) + match entry_choice(
            catalog,
            type_label,
            uniques,
            entries.last().0,
            entries.last().1,
        ) {
            Some(c) => seq![c],
            None => Seq::empty(),
        }
    }
}

/// Fields answered by a relation expansion.
pub open spec fn expanded_fields(choices: Seq<(SourceView, NoteView)>) -> Seq<Seq<char>>
    decreases choices.len(),
{
    if choices.len() == 0 {
        Seq::empty()
    } else {
        expanded_fields(choices.drop_last()) + match choices.last().0 {
            SourceView::RelationExpansion { field, .. } => seq![field],
            _ => Seq::empty(),
        }
    }
}

/// `f` without the top-level relation conjuncts on `consumed` fields;
/// `None` when `f` itself is such a conjunct.
pub open spec fn strip_consumed(f: FilterView, consumed: Seq<Seq<char>>) -> Option<FilterView>
    decreases f, 1int,
{
    match f {
        FilterView::Relation { field, target_type, filter } => if consumed.contains(field) { None } else { Some(f) },
        FilterView::And(parts) => Some(FilterView::And(strip_parts(parts, consumed))),
        _ => Some(f),
    }
}

pub open spec fn strip_parts(parts: Seq<FilterView>, consumed: Seq<Seq<char>>) -> Seq<FilterView>
    decreases parts, 0int,
{
    if parts.len() == 0 {
        Seq::empty()
    } else {
        strip_parts(parts.drop_last(), consumed) + match strip_consumed(parts.last(), consumed) {
            Some(x) => seq![x],
            None => Seq::empty(),
        }
    }
}

pub open spec fn is_empty_and(f: FilterView) -> bool {
    f matches FilterView::And(parts) && parts.len() == 0
}

/// The residual of a plan: the lowered filter, without the relation
/// conjuncts an expansion answers; none when nothing is left.
pub open spec fn plan_residual(lowered: FilterView, consumed: Seq<Seq<char>>) -> Option<FilterView> {
    if consumed.len() == 0 {
        if is_empty_and(lowered) { None } else { Some(lowered) }
    } else {
        match strip_consumed(lowered, consumed) {
            Some(f) => if is_empty_and(f) { None } else { Some(f) },
            None => None,
        }
    }
}

/// Detail of the note on a full type scan.
pub open spec fn full_scan_detail() -> Seq<char> {
    "no candidate-producing conjuncts; residual filtering handles all predicates"@
}

/// The candidate plan for a filter whose entries are in ascending key
/// order: no access path means a full type scan, one is used as is, and
/// several are intersected.
pub open spec fn plan_of(
    catalog: Seq<(String, QueryTypeMetadata)>,
    type_label: Seq<char>,
    uniques: Seq<Seq<char>>,
    entries: Seq<(Seq<char>, ValueView)>,
) -> PlanView
    decreases entries, 4int,
{
    let choices = entry_choices(catalog, type_label, uniques, entries);
    let notes = choices.map_values(|c: (SourceView, NoteView)| c.1);
    let residual = plan_residual(lower_map(entries), expanded_fields(choices));
    if choices.len() == 0 {
        PlanView {
            type_label,
            source: SourceView::FullTypeScan,
            residual,
            notes: notes.push(note("full_type_scan"@, full_scan_detail())),
        }
    } else if choices.len() == 1 {
        PlanView { type_label, source: choices[0].0, residual, notes }
    } else {
        PlanView {
            type_label,
            source: SourceView::Intersection(choices.map_values(|c: (SourceView, NoteView)|
                PlanView { type_label, source: c.0, residual: None, notes: Seq::empty() })),
            residual,
            notes,
        }
    }
}

/// The value of the first field of `map` named `key`.
fn lookup<'a>(map: &'a Vec<(String, QueryValue)>, key: &str) -> (r: Option<&'a QueryValue>)
    ensures
        match r {
            Some(v) => field_value(fields_view(map@), key@) == Some(v@),
            None => field_value(fields_view(map@), key@) is None,
        },
{
    let name = String::from_str(key);
    match find_field(map, &name) {
        Some(j) => Some(&map[j].1),
        None => None,
    }
}

fn pushdown_key_str(i: usize) -> (s: &'static str)
    ensures
        s@ == pushdown_key(i as int),
{
    if i == 0 { "gt" } else if i == 1 { "ge" } else if i == 2 { "lt" } else if i == 3 { "le" } else if i == 4 { "ne" } else { "in" }
}

fn pushdown_op_exec(i: usize) -> (op: FilterOp)
    ensures
        op == pushdown_op(i as int),
{
    if i == 0 { FilterOp::Gt } else if i == 1 { FilterOp::Ge } else if i == 2 { FilterOp::Lt } else if i == 3 { FilterOp::Le } else if i == 4 { FilterOp::Ne } else { FilterOp::In }
}

fn text_key_str(i: usize) -> (s: &'static str)
    ensures
        s@ == text_key(i as int),
{
    if i == 0 { "allofterms" } else if i == 1 { "anyofterms" } else if i == 2 { "alloftext" } else { "anyoftext" }
}

fn text_op_exec(i: usize) -> (op: FilterOp)
    ensures
        op == text_op_at(i as int),
{
    if i == 0 { FilterOp::AllOfTerms } else if i == 1 { FilterOp::AnyOfTerms } else if i == 2 { FilterOp::AllOfText } else { FilterOp::AnyOfText }
}

/// `a`, `b` and `c` joined.
fn join3(a: &str, b: &str, c: &str) -> (s: String)
    ensures
        s@ == a@ + b@ + c@,
{
    let mut s = String::from_str(a);
    s.append(b);
    s.append(c);
    s
}

/// A storage pushdown of `field op value`.
fn pushdown_exec(field: &str, op: FilterOp, value: QueryValue) -> (r: CandidateSource)
    ensures
        source_view(r) == pushdown(field@, op, value@),
{
    let path = FieldPath::field(field);
    proof {
        assert(crate::query_planner::ir::path_view(path) =~= seq![SegmentView::Field(field@)]);
    }
    CandidateSource::PredicatePushdown(FilterPredicate { path, op, value })
}

/// The first pushdown comparison of the condition (see [`pushdown_from`]).
fn pushdown_choice(field: &str, map: &Vec<(String, QueryValue)>) -> (r: Option<(CandidateSource, AccessPathNote)>)
    ensures
        match r {
            Some(c) => pushdown_from(field@, fields_view(map@), 0) == Some((source_view(c.0), note_view(c.1))),
            None => pushdown_from(field@, fields_view(map@), 0) is None,
        },
{
    let mut i: usize = 0;
    while i < 6
        invariant
            i <= 6,
            pushdown_from(field@, fields_view(map@), 0) == pushdown_from(field@, fields_view(map@), i as int),
        decreases 6 - i,
    {
        let key = pushdown_key_str(i);
        if let Some(v) = lookup(map, key) {
            let mut detail = join3("`", field, " ");
            detail.append(key);
            detail.append("` -> sql pushdown");
            proof {
                reveal_strlit("`");
                reveal_strlit(" ");
                reveal_strlit("` -> sql pushdown");
                reveal_strlit("sql_pushdown");
            }
            return Some((pushdown_exec(field, pushdown_op_exec(i), copy_value(v)), AccessPathNote { kind: "sql_pushdown", detail }));
        }
        i = i + 1;
    }
    None
}

/// The first text-index lookup of the condition (see [`text_from`]).
fn text_choice(field: &str, map: &Vec<(String, QueryValue)>) -> (r: Option<(CandidateSource, AccessPathNote)>)
    ensures
        match r {
            Some(c) => text_from(field@, fields_view(map@), 0) == Some((source_view(c.0), note_view(c.1))),
            None => text_from(field@, fields_view(map@), 0) is None,
        },
{
    let mut i: usize = 0;
    while i < 4
        invariant
            i <= 4,
            text_from(field@, fields_view(map@), 0) == text_from(field@, fields_view(map@), i as int),
        decreases 4 - i,
    {
        let key = text_key_str(i);
        if let Some(QueryValue::String(q)) = lookup(map, key) {
            let mut detail = join3("`", field, " ");
            detail.append(key);
            detail.append("` -> term index lookup");
            let kind = if i >= 2 { "fulltext_index" } else { "term_index" };
            proof {
                reveal_strlit("`");
                reveal_strlit(" ");
                reveal_strlit("` -> term index lookup");
                reveal_strlit("fulltext_index");
                reveal_strlit("term_index");
            }
            return Some((
                CandidateSource::TextIndex { field: String::from_str(field), op: text_op_exec(i), query: q.clone() },
                AccessPathNote { kind, detail },
            ));
        }
        i = i + 1;
    }
    None
}

/// Whether `list` holds `s`.
fn contains_text(list: &[String], s: &str) -> (b: bool)
    ensures
        b == texts_view(list@).contains(s@),
{
    let mut i: usize = 0;
    while i < list.len()
        invariant
            i <= list@.len(),
            forall|j: int| 0 <= j < i ==> list@[j]@ != s@,
        decreases list@.len() - i,
    {
        if crate::render::same_text(list[i].as_str(), s) {
            proof {
                assert(texts_view(list@)[i as int] == s@);
            }
            return true;
        }
        i = i + 1;
    }
    proof {
        if texts_view(list@).contains(s@) {
            let j = choose|j: int| 0 <= j < texts_view(list@).len() && texts_view(list@)[j] == s@;
            assert(list@[j]@ == s@);
        }
    }
    false
}

/// The content of a chosen access path.
pub open spec fn choice_view(c: Option<(CandidateSource, AccessPathNote)>) -> Option<(SourceView, NoteView)> {
    match c {
        Some(x) => Some((source_view(x.0), note_view(x.1))),
        None => None,
    }
}

fn clone_texts(v: &Vec<String>) -> (r: Vec<String>)
    ensures
        texts_view(r@) == texts_view(v@),
{
    let mut out: Vec<String> = Vec::new();
    let mut i: usize = 0;
    while i < v.len()
        invariant
            i <= v@.len(),
            out@ == v@.take(i as int),
        decreases v@.len() - i,
    {
        out.push(v[i].clone());
        proof {
            assert(out@ =~= v@.take(i as int + 1));
        }
        i = i + 1;
    }
    proof {
        assert(v@.take(v@.len() as int) =~= v@);
    }
    out
}

/// The access path one filter entry yields (see [`entry_choice`]).
fn entry_choice_exec(
    catalog: &Vec<(String, QueryTypeMetadata)>,
    type_label: &str,
    uniques: &[String],
    field: &String,
    cond: &QueryValue,
) -> (r: Option<(CandidateSource, AccessPathNote)>)
    ensures
        choice_view(r) == entry_choice(catalog@, type_label@, texts_view(uniques@), field@, cond@),
    decreases cond, 2int,
{
    proof {
        reveal_strlit("and");
        reveal_strlit("or");
        reveal_strlit("not");
    }
    let f = field.as_str();
    if crate::render::same_text(f, "and") || crate::render::same_text(f, "or") || crate::render::same_text(f, "not") {
        return None;
    }
    match cond {
        QueryValue::Object(_) => object_choice_exec(catalog, type_label, uniques, field, cond),
        _ => {
            if contains_text(uniques, f) {
                let detail = join3("unique scalar equality `", f, "` -> unique index");
                proof {
                    reveal_strlit("unique scalar equality `");
                    reveal_strlit("` -> unique index");
                    reveal_strlit("unique_index");
                }
                Some((
                    CandidateSource::UniqueLookup { field: field.clone(), value: copy_value(cond) },
                    AccessPathNote { kind: "unique_index", detail },
                ))
            } else {
                let detail = join3("scalar equality `", f, "` -> sql pushdown");
                proof {
                    reveal_strlit("scalar equality `");
                    reveal_strlit("` -> sql pushdown");
                    reveal_strlit("sql_pushdown");
                }
                Some((pushdown_exec(f, FilterOp::Eq, copy_value(cond)), AccessPathNote { kind: "sql_pushdown", detail }))
            }
        },
    }
}

/// The access path an operator object yields (see [`object_choice`]).
fn object_choice_exec(
    catalog: &Vec<(String, QueryTypeMetadata)>,
    type_label: &str,
    uniques: &[String],
    field: &String,
    cond: &QueryValue,
) -> (r: Option<(CandidateSource, AccessPathNote)>)
    ensures
        choice_view(r) == object_choice(catalog@, type_label@, texts_view(uniques@), field@, cond@),
    decreases cond, 1int,
{
    let map = match cond {
        QueryValue::Object(m) => m,
        _ => return None,
    };
    let f = field.as_str();
    if let Some(v) = lookup(map, "eq") {
        proof {
            reveal_strlit("eq");
        }
        if contains_text(uniques, f) {
            let detail = join3("unique equality `", f, "` -> unique index lookup (miss yields empty result)");
            proof {
                reveal_strlit("unique equality `");
                reveal_strlit("` -> unique index lookup (miss yields empty result)");
                reveal_strlit("unique_index");
            }
            return Some((
                CandidateSource::UniqueLookup { field: field.clone(), value: copy_value(v) },
                AccessPathNote { kind: "unique_index", detail },
            ));
        }
        let detail = join3("equality `", f, "` -> sql pushdown");
        proof {
            reveal_strlit("equality `");
            reveal_strlit("` -> sql pushdown");
            reveal_strlit("sql_pushdown");
        }
        return Some((pushdown_exec(f, FilterOp::Eq, copy_value(v)), AccessPathNote { kind: "sql_pushdown", detail }));
    }
    proof {
        reveal_strlit("eq");
    }
    if let Some(c) = pushdown_choice(f, map) {
        return Some(c);
    }
    proof {
        reveal_strlit("contains");
    }
    if let Some(QueryValue::String(sub)) = lookup(map, "contains") {
        let detail = join3("contains `", f, "` -> sql pushdown");
        proof {
            reveal_strlit("contains `");
            reveal_strlit("` -> sql pushdown");
            reveal_strlit("sql_pushdown");
        }
        return Some((
            pushdown_exec(f, FilterOp::Contains, QueryValue::String(sub.clone())),
            AccessPathNote { kind: "sql_pushdown", detail },
        ));
    }
    if let Some(c) = text_choice(f, map) {
        return Some(c);
    }
    proof {
        reveal_strlit("near");
        reveal_strlit("within");
        reveal_strlit("intersects");
    }
    if lookup(map, "near").is_some() || lookup(map, "within").is_some() || lookup(map, "intersects").is_some() {
        return None;
    }
    let mi = match find_meta(catalog, type_label) {
        Some(i) => i,
        None => return None,
    };
    let meta = &catalog[mi].1;
    let target = match find_relation(&meta.relations, f) {
        Some(t) => t,
        None => return None,
    };
    let inverse = match find_inverse(&meta.inverses, f) {
        Some(t) => t,
        None => return None,
    };
    let child_uniques: Vec<String> = match find_meta(catalog, target.as_str()) {
        Some(ti) => clone_texts(&catalog[ti].1.uniques),
        None => Vec::new(),
    };
    proof {
        assert(texts_view(child_uniques@) =~= uniques_of(catalog@, target@));
        assert(decreases_to!(*cond => (*cond)->Object_0));
    }
    let child_plan = plan_entries(catalog, target.as_str(), child_uniques.as_slice(), map);
    let mut detail = join3("nested filter on relation `", f, "` -> plan children of ");
    detail.append(target.as_str());
    detail.append(" then expand inverse `");
    detail.append(inverse.as_str());
    detail.append("`");
    proof {
        reveal_strlit("nested filter on relation `");
        reveal_strlit("` -> plan children of ");
        reveal_strlit(" then expand inverse `");
        reveal_strlit("`");
        reveal_strlit("relation_expansion");
    }
    Some((
        CandidateSource::RelationExpansion {
            field: field.clone(),
            target_type: target.clone(),
            child_plan: Box::new(child_plan),
            inverse_field: inverse.clone(),
            child_raw_filter: Some(copy_fields(map)),
            child_uniques,
        },
        AccessPathNote { kind: "relation_expansion", detail },
    ))
}

/// The candidate plan for entries in ascending key order (see [`plan_of`]).
fn plan_entries(
    catalog: &Vec<(String, QueryTypeMetadata)>,
    type_label: &str,
    uniques: &[String],
    entries: &Vec<(String, QueryValue)>,
) -> (r: CandidatePlan)
    ensures
        r@ == plan_of(catalog@, type_label@, texts_view(uniques@), fields_view(entries@)),
    decreases entries, 4int,
{
    let ghost ev = fields_view(entries@);
    let ghost uv = texts_view(uniques@);
    proof {
        lemma_fields_view(entries@);
    }
    let mut sources: Vec<CandidateSource> = Vec::new();
    let mut notes: Vec<AccessPathNote> = Vec::new();
    let mut consumed: Vec<String> = Vec::new();
    let mut i: usize = 0;
    while i < entries.len()
        invariant
            i <= entries@.len(),
            ev == fields_view(entries@),
            uv == texts_view(uniques@),
            ev.len() == entries@.len(),
            forall|j: int| 0 <= j < entries@.len() ==> #[trigger] ev[j] == (entries@[j].0@, entries@[j].1@),
            sources@.len() == notes@.len(),
            entry_choices(catalog@, type_label@, uv, ev.take(i as int)).len() == sources@.len(),
            forall|k: int| 0 <= k < sources@.len() ==>
                #[trigger] entry_choices(catalog@, type_label@, uv, ev.take(i as int))[k] == (source_view(sources@[k]), note_view(notes@[k])),
            texts_view(consumed@) == expanded_fields(entry_choices(catalog@, type_label@, uv, ev.take(i as int))),
        decreases entries@.len() - i,
    {
        proof {
            assert(decreases_to!(*entries => entries@));
            assert(decreases_to!(entries@ => entries@[i as int]));
            assert(decreases_to!(entries@[i as int] => entries@[i as int].1));
            assert(ev.take(i as int + 1).drop_last() =~= ev.take(i as int));
            assert(ev.take(i as int + 1).last() == (entries@[i as int].0@, entries@[i as int].1@));
        }
        let ghost prev = entry_choices(catalog@, type_label@, uv, ev.take(i as int));
        match entry_choice_exec(catalog, type_label, uniques, &entries[i].0, &entries[i].1) {
            Some((src, nt)) => {
                let ghost c = (source_view(src), note_view(nt));
                proof {
                    assert(entry_choices(catalog@, type_label@, uv, ev.take(i as int + 1)) =~= prev.push(c));
                    assert(prev.push(c).drop_last() =~= prev);
                }
                match &src {
                    CandidateSource::RelationExpansion { field, .. } => {
                        consumed.push(field.clone());
                        proof {
                            assert(texts_view(consumed@) =~= expanded_fields(prev) + seq![field@]);
                        }
                    },
                    _ => {
                        proof {
                            assert(texts_view(consumed@) =~= expanded_fields(prev) + Seq::<Seq<char>>::empty());
                        }
                    },
                }
                sources.push(src);
                notes.push(nt);
            },
            None => {
                proof {
                    assert(entry_choices(catalog@, type_label@, uv, ev.take(i as int + 1)) =~= prev);
                }
            },
        }
        i = i + 1;
    }
    proof {
        assert(ev.take(entries@.len() as int) =~= ev);
    }
    let ghost choices = entry_choices(catalog@, type_label@, uv, ev);
    let lowered = lower_filter_map(entries);
    let residual = if consumed.len() == 0 {
        if lowered.is_empty_conjunction() {
            None
        } else {
            Some(lowered)
        }
    } else {
        match strip_consumed_exec(lowered, &consumed) {
            Some(f) => if f.is_empty_conjunction() {
                None
            } else {
                Some(f)
            },
            None => None,
        }
    };
    proof {
        assert(residual_view(residual) == plan_residual(lower_map(ev), expanded_fields(choices)));
        assert(notes_view(notes@) =~= choices.map_values(|c: (SourceView, NoteView)| c.1));
    }
    let label = String::from_str(type_label);
    if sources.len() == 0 {
        let ghost before = notes@;
        notes.push(AccessPathNote {
            kind: "full_type_scan",
            detail: String::from_str("no candidate-producing conjuncts; residual filtering handles all predicates"),
        });
        proof {
            reveal_strlit("full_type_scan");
            reveal_strlit("no candidate-producing conjuncts; residual filtering handles all predicates");
            assert(notes_view(notes@) =~= notes_view(before).push(note("full_type_scan"@, full_scan_detail())));
        }
        return CandidatePlan { type_label: label, source: CandidateSource::FullTypeScan, residual, notes };
    }
    if sources.len() == 1 {
        let src = match sources.pop() {
            Some(s) => s,
            None => CandidateSource::FullTypeScan,
        };
        return CandidatePlan { type_label: label, source: src, residual, notes };
    }
    let ghost all = sources@;
    let n = sources.len();
    let mut plans: Vec<CandidatePlan> = Vec::new();
    let mut k: usize = 0;
    proof {
        assert(all.skip(0) =~= all);
    }
    while sources.len() > 0
        invariant
            k + sources@.len() == n,
            n == all.len(),
            n == choices.len(),
            sources@ == all.skip(k as int),
            forall|j: int| 0 <= j < n ==> #[trigger] choices[j].0 == source_view(all[j]),
            plans_view(plans@) == choices.take(k as int).map_values(|c: (SourceView, NoteView)|
                PlanView { type_label: type_label@, source: c.0, residual: None, notes: Seq::empty() }),
        decreases sources@.len(),
    {
        let src = sources.remove(0);
        proof {
            assert(src == all[k as int]);
            assert(sources@ =~= all.skip(k as int + 1));
        }
        let ghost before = plans@;
        let no_notes: Vec<AccessPathNote> = Vec::new();
        let plan = CandidatePlan { type_label: String::from_str(type_label), source: src, residual: None, notes: no_notes };
        let ghost pv = PlanView { type_label: type_label@, source: choices[k as int].0, residual: None, notes: Seq::empty() };
        proof {
            assert(notes_view(no_notes@) =~= Seq::<NoteView>::empty());
            assert(plan@ == pv);
        }
        plans.push(plan);
        proof {
            lemma_plans_view(before);
            lemma_plans_view(plans@);
            assert(plans_view(plans@) =~= plans_view(before).push(pv));
            assert(choices.take(k as int + 1).map_values(|c: (SourceView, NoteView)|
                PlanView { type_label: type_label@, source: c.0, residual: None, notes: Seq::empty() })
                =~= choices.take(k as int).map_values(|c: (SourceView, NoteView)|
                PlanView { type_label: type_label@, source: c.0, residual: None, notes: Seq::empty() }).push(pv));
        }
        k = k + 1;
    }
    proof {
        assert(choices.take(n as int) =~= choices);
    }
    CandidatePlan { type_label: label, source: CandidateSource::Intersection(plans), residual, notes }
}

/// `filter` without its top-level relation conjuncts on `consumed` fields
/// (see [`strip_consumed`]).
#[verifier::loop_isolation(false)]
fn strip_consumed_exec(filter: LogicalFilter, consumed: &Vec<String>) -> (r: Option<LogicalFilter>)
    ensures
        residual_view(r) == strip_consumed(filter@, texts_view(consumed@)),
    decreases filter,
{
    let ghost whole = filter;
    match filter {
        LogicalFilter::Relation { field, target_type, filter: sub } => {
            if contains_text(consumed.as_slice(), field.as_str()) {
                None
            } else {
                Some(LogicalFilter::Relation { field, target_type, filter: sub })
            }
        },
        LogicalFilter::And(parts) => {
            let ghost orig = parts@;
            let ghost fv = filters_view(orig);
            proof {
                lemma_filters_view(orig);
            }
            let mut parts = parts;
            let total = parts.len();
            let mut out: Vec<LogicalFilter> = Vec::new();
            let mut k: usize = 0;
            proof {
                assert(orig.skip(0) =~= orig);
                assert(fv.take(0) =~= Seq::<FilterView>::empty());
            }
            while parts.len() > 0
                invariant
                    whole == LogicalFilter::And(whole->And_0),
                    orig == whole->And_0@,
                    fv == filters_view(orig),
                    fv.len() == orig.len(),
                    forall|j: int| 0 <= j < orig.len() ==> #[trigger] fv[j] == orig[j]@,
                    k + parts@.len() == total,
                    total == orig.len(),
                    parts@ == orig.skip(k as int),
                    filters_view(out@) == strip_parts(fv.take(k as int), texts_view(consumed@)),
                decreases parts@.len(),
            {
                let p = parts.remove(0);
                proof {
                    assert(p == orig[k as int]);
                    assert(parts@ =~= orig.skip(k as int + 1));
                    assert(decreases_to!(whole => whole->And_0));
                    assert(decreases_to!(whole->And_0 => orig));
                    assert(decreases_to!(orig => orig[k as int]));
                    assert(decreases_to!(whole => orig[k as int]));
                    assert(decreases_to!(whole => p));
                    assert(fv.take(k as int + 1).drop_last() =~= fv.take(k as int));
                    assert(fv.take(k as int + 1).last() == p@);
                }
                let ghost before = out@;
                match strip_consumed_exec(p, consumed) {
                    Some(x) => {
                        out.push(x);
                        proof {
                            lemma_filters_view(before);
                            lemma_filters_view(out@);
                            assert(filters_view(out@) =~= filters_view(before) + seq![x@]);
                        }
                    },
                    None => {
                        proof {
                            assert(filters_view(out@) =~= filters_view(before) + Seq::<FilterView>::empty());
                        }
                    },
                }
                k = k + 1;
            }
            proof {
                assert(fv.take(orig.len() as int) =~= fv);
            }
            Some(LogicalFilter::And(out))
        },
        other => Some(other),
    }
}

/// The candidate plan for `filter` on the context's type: its entries
/// taken as a map (ascending keys, the last of equal keys), planned as
/// [`plan_of`] describes.
pub fn build_candidate_plan(ctx: &PlanContext<Vec<(String, QueryTypeMetadata)>>, filter: &Vec<(String, QueryValue)>) -> (r: CandidatePlan)
    ensures
        r@ == plan_of(ctx.metadata@, ctx.type_label@, texts_view(ctx.uniques@), canonical_fields(fields_view(filter@))),
{
    let whole = QueryValue::Object(copy_fields(filter));
    let canon = canonical(&whole);
    match &canon {
        QueryValue::Object(entries) => plan_entries(ctx.metadata, ctx.type_label, ctx.uniques, entries),
        _ => {
            proof {
                assert(false);
            }
            plan_entries(ctx.metadata, ctx.type_label, ctx.uniques, filter)
        },
    }
}

/// Plans `filter` on `type_label` (see [`build_candidate_plan`]).
pub fn plan_candidates(
    db_name: &str,
    type_label: &str,
    filter: &Vec<(String, QueryValue)>,
    uniques: &[String],
    metadata: &Vec<(String, QueryTypeMetadata)>,
) -> (r: CandidatePlan)
    ensures
        r@ == plan_of(metadata@, type_label@, texts_view(uniques@), canonical_fields(fields_view(filter@))),
{
    let ctx = PlanContext { db_name, type_label, uniques, metadata };
    build_candidate_plan(&ctx, filter)
}

/// Whether a relation conjunct on a `consumed` field is reachable from `f`
/// through conjunctions.
pub open spec fn has_consumed_conjunct(f: FilterView, consumed: Seq<Seq<char>>) -> bool
    decreases f, 1int,
{
    match f {
        FilterView::Relation { field, target_type, filter } => consumed.contains(field),
        FilterView::And(parts) => parts_have_consumed(parts, consumed),
        _ => false,
    }
}

pub open spec fn parts_have_consumed(parts: Seq<FilterView>, consumed: Seq<Seq<char>>) -> bool
    decreases parts, 0int,
{
    if parts.len() == 0 {
        false
    } else {
        parts_have_consumed(parts.drop_last(), consumed) || has_consumed_conjunct(parts.last(), consumed)
    }
}

proof fn lemma_strip_parts_clean(parts: Seq<FilterView>, consumed: Seq<Seq<char>>)
    ensures
        !parts_have_consumed(strip_parts(parts, consumed), consumed),
    decreases parts, 0int,
{
    if parts.len() > 0 {
        lemma_strip_parts_clean(parts.drop_last(), consumed);
        lemma_strip_consumed(parts.last(), consumed);
        let prev = strip_parts(parts.drop_last(), consumed);
        match strip_consumed(parts.last(), consumed) {
            Some(x) => {
                let r = prev + seq![x];
                assert(r.drop_last() =~= prev);
                assert(r.last() == x);
            },
            None => {
                assert(prev + Seq::<FilterView>::empty() =~= prev);
            },
        }
    }
}

/// Stripping drops exactly the relation conjuncts on consumed fields: the
/// whole filter only when it is one, none of them remains among the
/// conjuncts of what is kept, and a filter that is neither a conjunction nor
/// such a relation is kept as it is (predicates under `or` and `not` stay
/// untouched).
pub proof fn lemma_strip_consumed(f: FilterView, consumed: Seq<Seq<char>>)
    ensures
        strip_consumed(f, consumed) is None <==> (f matches FilterView::Relation { field, .. } && consumed.contains(field)),
        strip_consumed(f, consumed) matches Some(g) ==> !has_consumed_conjunct(g, consumed),
        !(f is And) && !(f matches FilterView::Relation { field, .. } && consumed.contains(field))
            ==> strip_consumed(f, consumed) == Some(f),
    decreases f, 1int,
{
    match f {
        FilterView::And(parts) => {
            lemma_strip_parts_clean(parts, consumed);
        },
        _ => {},
    }
}

/// A plan's residual never holds a relation conjunct that one of its
/// relation expansions answers.
pub proof fn lemma_plan_residual_clean(
    catalog: Seq<(String, QueryTypeMetadata)>,
    type_label: Seq<char>,
    uniques: Seq<Seq<char>>,
    entries: Seq<(Seq<char>, ValueView)>,
)
    ensures
        ({
            let consumed = expanded_fields(entry_choices(catalog, type_label, uniques, entries));
            plan_of(catalog, type_label, uniques, entries).residual matches Some(r) ==> !has_consumed_conjunct(r, consumed)
        }),
{
    let consumed = expanded_fields(entry_choices(catalog, type_label, uniques, entries));
    let lowered = lower_map(entries);
    lemma_strip_consumed(lowered, consumed);
    if consumed.len() == 0 {
        lemma_nothing_consumed(lowered, consumed);
    }
}

proof fn lemma_nothing_consumed(f: FilterView, consumed: Seq<Seq<char>>)
    requires
        consumed.len() == 0,
    ensures
        !has_consumed_conjunct(f, consumed),
    decreases f, 1int,
{
    match f {
        FilterView::And(parts) => lemma_nothing_consumed_parts(parts, consumed),
        _ => {},
    }
}

proof fn lemma_nothing_consumed_parts(parts: Seq<FilterView>, consumed: Seq<Seq<char>>)
    requires
        consumed.len() == 0,
    ensures
        !parts_have_consumed(parts, consumed),
    decreases parts, 0int,
{
    if parts.len() > 0 {
        lemma_nothing_consumed_parts(parts.drop_last(), consumed);
        lemma_nothing_consumed(parts.last(), consumed);
    }
}

} // verus!
