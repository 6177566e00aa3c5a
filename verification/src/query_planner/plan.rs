//! Candidate plans: the access path chosen for a filtered read, the
//! residual filter rows must still pass, and notes on each choice.
use vstd::prelude::*;
use crate::query_planner::ir::{
    fields_view, EntityId, FilterOp, FilterPredicate, FilterView, LogicalFilter, PredicateView,
    QueryValue, SortDirection, ValueView, predicate_view,
};
use crate::query_planner::traits::{uids_of, NestedCandidateRequest, PlannerRuntime};
use crate::query_planner::ir::{lemma_segments_text, segments_text, untyped_id};
use crate::query_planner::physical_expr::{debug_quote, quoted};
use crate::query_planner::value_text::{append_value_debug, value_debug};
use crate::render::{concat_num, decimal};
use crate::query_planner::operators::source::{dedup_sorted, has_uid, keep_members, keep_members_exec, union_ids};

verus! {

/// How a candidate plan narrows the rows of its type.
#[derive(Debug)]
pub enum CandidateSource {
    FullTypeScan,
    UniqueLookup { field: String, value: QueryValue },
    OrderedIndexScan { field: String, direction: SortDirection },
    PredicatePushdown(FilterPredicate),
    TextIndex { field: String, op: FilterOp, query: String },
    /// Plan the related type, then follow the inverse edge back.
    RelationExpansion {
        field: String,
        target_type: String,
        child_plan: Box<CandidatePlan>,
        inverse_field: String,
        /// The nested filter the children are checked against.
        child_raw_filter: Option<Vec<(String, QueryValue)>>,
        child_uniques: Vec<String>,
    },
    Intersection(Vec<CandidatePlan>),
    Union(Vec<CandidatePlan>),
}

/// The access path for one type, the filter rows must still pass, and the
/// notes on how it was chosen.
#[derive(Debug)]
pub struct CandidatePlan {
    pub type_label: String,
    pub source: CandidateSource,
    pub residual: Option<LogicalFilter>,
    pub notes: Vec<AccessPathNote>,
}

/// The content of an access-path note.
pub struct NoteView {
    pub kind: Seq<char>,
    pub detail: Seq<char>,
}

/// The content of a [`CandidateSource`].
pub enum SourceView {
    FullTypeScan,
    UniqueLookup { field: Seq<char>, value: ValueView },
    OrderedIndexScan { field: Seq<char>, direction: SortDirection },
    PredicatePushdown(PredicateView),
    TextIndex { field: Seq<char>, op: FilterOp, query: Seq<char> },
    RelationExpansion {
        field: Seq<char>,
        target_type: Seq<char>,
        child_plan: Box<PlanView>,
        inverse_field: Seq<char>,
        child_raw_filter: Option<Seq<(Seq<char>, ValueView)>>,
        child_uniques: Seq<Seq<char>>,
    },
    Intersection(Seq<PlanView>),
    Union(Seq<PlanView>),
}

/// The content of a [`CandidatePlan`].
pub struct PlanView {
    pub type_label: Seq<char>,
    pub source: SourceView,
    pub residual: Option<FilterView>,
    pub notes: Seq<NoteView>,
}

pub open spec fn note_view(n: AccessPathNote) -> NoteView {
    NoteView { kind: n.kind@, detail: n.detail@ }
}

pub open spec fn notes_view(notes: Seq<AccessPathNote>) -> Seq<NoteView> {
    notes.map_values(|n: AccessPathNote| note_view(n))
}

pub open spec fn residual_view(r: Option<LogicalFilter>) -> Option<FilterView> {
    match r {
        Some(f) => Some(f@),
        None => None,
    }
}

pub open spec fn texts_view(v: Seq<String>) -> Seq<Seq<char>> {
    v.map_values(|s: String| s@)
}

impl View for CandidatePlan {
    type V = PlanView;

    open spec fn view(&self) -> PlanView
        decreases self, 2int,
    {
        PlanView {
            type_label: self.type_label@,
            source: source_view(self.source),
            residual: residual_view(self.residual),
            notes: notes_view(self.notes@),
        }
    }
}

/// The content of a candidate source.
pub open spec fn source_view(s: CandidateSource) -> SourceView
    decreases s, 1int,
{
    match s {
        CandidateSource::FullTypeScan => SourceView::FullTypeScan,
        CandidateSource::UniqueLookup { field, value } => SourceView::UniqueLookup { field: field@, value: value@ },
        CandidateSource::OrderedIndexScan { field, direction } => SourceView::OrderedIndexScan { field: field@, direction },
        CandidateSource::PredicatePushdown(p) => SourceView::PredicatePushdown(predicate_view(p)),
        CandidateSource::TextIndex { field, op, query } => SourceView::TextIndex { field: field@, op, query: query@ },
        CandidateSource::RelationExpansion { field, target_type, child_plan, inverse_field, child_raw_filter, child_uniques } =>
            SourceView::RelationExpansion {
                field: field@,
                target_type: target_type@,
                child_plan: Box::new((*child_plan).view()),
                inverse_field: inverse_field@,
                child_raw_filter: match child_raw_filter {
                    Some(m) => Some(fields_view(m@)),
                    None => None,
                },
                child_uniques: texts_view(child_uniques@),
            },
        CandidateSource::Intersection(plans) => SourceView::Intersection(plans_view(plans@)),
        CandidateSource::Union(plans) => SourceView::Union(plans_view(plans@)),
    }
}

/// The content of each plan.
pub open spec fn plans_view(plans: Seq<CandidatePlan>) -> Seq<PlanView>
    decreases plans, 0int,
{
    if plans.len() == 0 {
        Seq::empty()
    } else {
        plans_view(plans.drop_last()).push(plans.last().view())
    }
}

pub proof fn lemma_plans_view(plans: Seq<CandidatePlan>)
    ensures
        plans_view(plans).len() == plans.len(),
        forall|i: int| 0 <= i < plans.len() ==> #[trigger] plans_view(plans)[i] == plans[i]@,
    decreases plans.len(),
{
    if plans.len() > 0 {
        assert(plans_view(plans) == plans_view(plans.drop_last()).push(plans.last().view()));
        lemma_plans_view(plans.drop_last());
    } else {
        assert(plans_view(plans) == Seq::<PlanView>::empty());
    }
}

/// The kind tag of a source.
pub open spec fn source_kind(s: SourceView) -> Seq<char> {
    match s {
        SourceView::FullTypeScan => "full_type_scan"@,
        SourceView::UniqueLookup { .. } => "unique_lookup"@,
        SourceView::OrderedIndexScan { .. } => "ordered_index_scan"@,
        SourceView::PredicatePushdown(_) => "predicate_pushdown"@,
        SourceView::TextIndex { .. } => "text_index"@,
        SourceView::RelationExpansion { .. } => "relation_expansion"@,
        SourceView::Intersection(_) => "intersection"@,
        SourceView::Union(_) => "union"@,
    }
}

/// The human-readable description of a candidate source.
pub open spec fn source_description(s: SourceView) -> Seq<char> {
    match s {
        SourceView::FullTypeScan => "full type scan"@,
        SourceView::UniqueLookup { field, .. } => "unique index lookup on `"@ + field + "`"@,
        SourceView::OrderedIndexScan { field, direction } => "ordered index scan on `"@ + field + "` ("@
            + match direction {
                SortDirection::Asc => "asc"@,
                SortDirection::Desc => "desc"@,
            } + ")"@,
        SourceView::PredicatePushdown(p) => "sql pushdown `"@ + segments_text(p.path) + " "@
            + p.op.name() + " "@ + value_debug(p.value) + "`"@,
        SourceView::TextIndex { field, op, query } => op.name() + " index lookup on `"@ + field + "` for "@
            + quoted(query),
        SourceView::RelationExpansion { field, target_type, inverse_field, .. } => "relation expansion `"@
            + field + "` -> "@ + target_type + " via inverse `"@ + inverse_field + "`"@,
        SourceView::Intersection(children) => "intersection of "@ + decimal(children.len()) + " candidate sets"@,
        SourceView::Union(children) => "union of "@ + decimal(children.len()) + " candidate sets"@,
    }
}

impl CandidateSource {
    /// The description of this source (see [`source_description`]).
    pub fn describe(&self) -> (s: String)
        ensures
            s@ == source_description(source_view(*self)),
    {
        proof {
            match self {
                CandidateSource::PredicatePushdown(p) => lemma_segments_text(p.path.segments@),
                CandidateSource::Intersection(c) => lemma_plans_view(c@),
                CandidateSource::Union(c) => lemma_plans_view(c@),
                _ => {},
            }
        }
        match self {
            CandidateSource::FullTypeScan => String::from_str("full type scan"),
            CandidateSource::UniqueLookup { field, .. } => {
                let mut s = String::from_str("unique index lookup on `");
                s.append(field.as_str());
                s.append("`");
                s
            },
            CandidateSource::OrderedIndexScan { field, direction } => {
                let mut s = String::from_str("ordered index scan on `");
                s.append(field.as_str());
                s.append("` (");
                match direction {
                    SortDirection::Asc => s.append("asc"),
                    SortDirection::Desc => s.append("desc"),
                }
                s.append(")");
                s
            },
            CandidateSource::PredicatePushdown(p) => {
                let mut s = String::from_str("sql pushdown `");
                let path = p.path.to_string();
                s.append(path.as_str());
                s.append(" ");
                s.append(p.op.as_str());
                s.append(" ");
                append_value_debug(&mut s, &p.value);
                s.append("`");
                s
            },
            CandidateSource::TextIndex { field, op, query } => {
                let mut s = String::from_str(op.as_str());
                s.append(" index lookup on `");
                s.append(field.as_str());
                s.append("` for ");
                let q = debug_quote(query.as_str());
                s.append(q.as_str());
                s
            },
            CandidateSource::RelationExpansion { field, target_type, inverse_field, .. } => {
                let mut s = String::from_str("relation expansion `");
                s.append(field.as_str());
                s.append("` -> ");
                s.append(target_type.as_str());
                s.append(" via inverse `");
                s.append(inverse_field.as_str());
                s.append("`");
                s
            },
            CandidateSource::Intersection(children) => concat_num("intersection of ", children.len() as u64, " candidate sets"),
            CandidateSource::Union(children) => concat_num("union of ", children.len() as u64, " candidate sets"),
        }
    }

    pub fn kind(&self) -> (s: &'static str)
        ensures
            s@ == source_kind(source_view(*self)),
    {
        match self {
            CandidateSource::FullTypeScan => "full_type_scan",
            CandidateSource::UniqueLookup { .. } => "unique_lookup",
            CandidateSource::OrderedIndexScan { .. } => "ordered_index_scan",
            CandidateSource::PredicatePushdown(_) => "predicate_pushdown",
            CandidateSource::TextIndex { .. } => "text_index",
            CandidateSource::RelationExpansion { .. } => "relation_expansion",
            CandidateSource::Intersection(_) => "intersection",
            CandidateSource::Union(_) => "union",
        }
    }
}

/// One note attached to a candidate plan: which access path was chosen or
/// rejected, and why.
#[derive(Debug, Clone)]
pub struct AccessPathNote {
    pub kind: &'static str,
    pub detail: String,
}

/// Result of executing a candidate plan. `NoNarrowing` lets the caller fall
/// back to its streaming range scan; `Narrowed(vec![])` is an authoritative
/// empty result (e.g. a unique-key miss).
#[derive(Debug, Clone)]
pub enum CandidateOutcome {
    NoNarrowing,
    Narrowed(Vec<EntityId>),
}

impl CandidateOutcome {
    /// The narrowed uids in order; `None` without narrowing.
    pub fn uids(&self) -> (r: Option<Vec<u64>>)
        ensures
            match *self {
                CandidateOutcome::NoNarrowing => r is None,
                CandidateOutcome::Narrowed(ids) => r matches Some(u) && u@ == uids_of(ids@),
            },
    {
        match self {
            CandidateOutcome::NoNarrowing => None,
            CandidateOutcome::Narrowed(ids) => {
                let mut out: Vec<u64> = Vec::new();
                let mut i: usize = 0;
                while i < ids.len()
                    invariant
                        i <= ids@.len(),
                        out@ == uids_of(ids@.take(i as int)),
                    decreases ids@.len() - i,
                {
                    out.push(ids[i].uid);
                    proof {
                        assert(uids_of(ids@.take(i as int + 1)) =~= uids_of(ids@.take(i as int)).push(ids@[i as int].uid));
                    }
                    i = i + 1;
                }
                proof {
                    assert(ids@.take(ids@.len() as int) =~= ids@);
                }
                Some(out)
            },
        }
    }
}

/// What executing a plan yields: `None` when it does not narrow, else the
/// candidate ids.
pub open spec fn outcome_view(o: CandidateOutcome) -> Option<Seq<EntityId>> {
    match o {
        CandidateOutcome::NoNarrowing => None,
        CandidateOutcome::Narrowed(ids) => Some(ids@),
    }
}

/// Untyped ids for uids.
pub open spec fn ids_of(uids: Seq<u64>) -> Seq<EntityId> {
    uids.map_values(|u: u64| untyped_id(u))
}

/// One step of intersecting children outcomes: `None` once aborted (a
/// child that does not narrow before any child that does), else the uids
/// narrowed so far (`None` before the first narrowing child).
pub open spec fn intersect_step(acc: Option<Option<Seq<u64>>>, item: Option<Seq<EntityId>>) -> Option<Option<Seq<u64>>> {
    match acc {
        None => None,
        Some(state) => match (state, item) {
            (None, Some(ids)) => Some(Some(uids_of(union_ids(ids)))),
            (Some(cur), Some(ids)) => Some(Some(keep_members(cur, ids))),
            (None, None) => None,
            (Some(cur), None) => Some(Some(cur)),
        },
    }
}

pub open spec fn intersect_all(outs: Seq<Option<Seq<EntityId>>>) -> Option<Option<Seq<u64>>>
    decreases outs.len(),
{
    if outs.len() == 0 {
        Some(None)
    } else {
        intersect_step(intersect_all(outs.drop_last()), outs.last())
    }
}

/// The ids of `ids` whose uid did not occur before, in order.
pub open spec fn first_per_uid(ids: Seq<EntityId>) -> Seq<EntityId>
    decreases ids.len(),
{
    if ids.len() == 0 {
        Seq::empty()
    } else {
        let prev = first_per_uid(ids.drop_last());
        if uids_of(prev).contains(ids.last().uid) { prev } else { prev.push(ids.last()) }
    }
}

/// All narrowed ids of the outcomes, concatenated in order.
pub open spec fn narrowed_concat(outs: Seq<Option<Seq<EntityId>>>) -> Seq<EntityId>
    decreases outs.len(),
{
    if outs.len() == 0 {
        Seq::empty()
    } else {
        narrowed_concat(outs.drop_last()) + match outs.last() {
            Some(ids) => ids,
            None => Seq::empty(),
        }
    }
}

/// Whether some outcome narrows.
pub open spec fn any_narrowed(outs: Seq<Option<Seq<EntityId>>>) -> bool {
    exists|i: int| 0 <= i < outs.len() && outs[i] is Some
}

/// Outcomes of the children plans, each executed eagerly.
pub open spec fn children_outcomes<R: PlannerRuntime>(rt: &R, children: Seq<PlanView>) -> Seq<Option<Seq<EntityId>>>
    decreases children, 0int,
{
    if children.len() == 0 {
        Seq::empty()
    } else {
        children_outcomes(rt, children.drop_last()).push(plan_outcome(rt, children.last(), true))
    }
}

/// What executing `plan` yields against `rt`. A full type scan narrows only
/// when `eager`. A unique lookup narrows to its hit or to nothing; storage
/// failures of index reads mean no narrowing. A relation expansion finds the
/// children (directly from storage when it can, else through the child
/// plan, else by scanning the child type; a failed scan narrows to nothing)
/// and follows the inverse edge back. An intersection keeps the ascending
/// uids common to the narrowing children, and narrows to nothing when a
/// child that does not narrow comes before any that does; a union keeps the
/// first id per uid of the narrowing children, in order.
pub open spec fn plan_outcome<R: PlannerRuntime>(rt: &R, plan: PlanView, eager: bool) -> Option<Seq<EntityId>>
    decreases plan, 1int,
{
    let t = plan.type_label;
    match plan.source {
        SourceView::FullTypeScan => if !eager {
            None
        } else {
            match rt.spec_scan_type(t, None, None) {
                Ok(l) => Some(l),
                Err(_) => Some(Seq::empty()),
            }
        },
        SourceView::UniqueLookup { field, value } => match rt.spec_lookup_unique(t, field, value) {
            Ok(Some(id)) => Some(seq![id]),
            Ok(None) => Some(Seq::empty()),
            Err(_) => None,
        },
        SourceView::OrderedIndexScan { field, direction } => match rt.spec_ordered_scan(t, field, direction, None, None) {
            Ok(l) => Some(l),
            Err(_) => None,
        },
        SourceView::PredicatePushdown(p) => match rt.spec_candidate_ids(t, p) {
            Ok(Some(l)) => Some(ids_of(uids_of(l))),
            _ => None,
        },
        SourceView::TextIndex { field, op, query } => match rt.spec_text_search(t, field, op, query, None) {
            Ok(l) => Some(l),
            Err(_) => None,
        },
        SourceView::RelationExpansion { field, target_type, child_plan, inverse_field, child_raw_filter, child_uniques } => {
            let kids: Option<Seq<EntityId>> = match child_raw_filter {
                Some(raw) => match rt.spec_nested_candidates(target_type, raw, child_uniques) {
                    Some(u) => Some(ids_of(u)),
                    None => match rt.spec_scan_type(target_type, None, None) {
                        Ok(l) => Some(l),
                        Err(_) => None,
                    },
                },
                None => match plan_outcome(rt, *child_plan, true) {
                    Some(ids) => Some(ids),
                    None => match rt.spec_scan_type(target_type, None, None) {
                        Ok(l) => Some(l),
                        Err(_) => None,
                    },
                },
            };
            match kids {
                None => Some(Seq::empty()),
                Some(ids) => match rt.spec_reverse_related_ids(target_type, inverse_field, uids_of(ids)) {
                    Ok(parents) => Some(parents),
                    Err(_) => None,
                },
            }
        },
        SourceView::Intersection(children) => match intersect_all(children_outcomes(rt, children)) {
            Some(Some(u)) => Some(ids_of(u)),
            _ => Some(Seq::empty()),
        },
        SourceView::Union(children) => if any_narrowed(children_outcomes(rt, children)) {
            Some(first_per_uid(narrowed_concat(children_outcomes(rt, children))))
        } else {
            None
        },
    }
}

/// Untyped ids for the given uids (see [`ids_of`]).
fn untyped_ids(uids: &Vec<u64>) -> (r: Vec<EntityId>)
    ensures
        r@ == ids_of(uids@),
{
    let mut out: Vec<EntityId> = Vec::new();
    let mut i: usize = 0;
    while i < uids.len()
        invariant
            i <= uids@.len(),
            out@ == ids_of(uids@.take(i as int)),
        decreases uids@.len() - i,
    {
        out.push(EntityId::new(uids[i]));
        proof {
            assert(out@ =~= ids_of(uids@.take(i as int + 1)));
        }
        i = i + 1;
    }
    proof {
        assert(uids@.take(uids@.len() as int) =~= uids@);
    }
    out
}

pub(crate) fn uids_exec(ids: &Vec<EntityId>) -> (r: Vec<u64>)
    ensures
        r@ == uids_of(ids@),
{
    let mut out: Vec<u64> = Vec::new();
    let mut i: usize = 0;
    while i < ids.len()
        invariant
            i <= ids@.len(),
            out@ == uids_of(ids@.take(i as int)),
        decreases ids@.len() - i,
    {
        out.push(ids[i].uid);
        proof {
            assert(out@ =~= uids_of(ids@.take(i as int + 1)));
        }
        i = i + 1;
    }
    proof {
        assert(ids@.take(ids@.len() as int) =~= ids@);
    }
    out
}

fn clone_strings(v: &Vec<String>) -> (r: Vec<String>)
    ensures
        r@ == v@,
{
    let mut out: Vec<String> = Vec::new();
    let mut i: usize = 0;
    while i < v.len()
        invariant
            i <= v@.len(),
            out@ == v@.take(i as int),
        decreases v@.len() - i,
    {
        out.push(v[i].clone());
        proof {
            assert(out@ =~= v@.take(i as int + 1));
        }
        i = i + 1;
    }
    proof {
        assert(v@.take(v@.len() as int) =~= v@);
    }
    out
}

impl CandidatePlan {
    /// Executes the plan; a full type scan does not narrow (see
    /// [`plan_outcome`]).
    pub fn execute<R: PlannerRuntime>(&self, runtime: &R) -> (r: CandidateOutcome)
        ensures
            outcome_view(r) == plan_outcome(runtime, self@, false),
    {
        self.exec_inner(runtime, false)
    }

    /// The narrowed uids of executing the plan; `None` without narrowing.
    pub fn execute_uids<R: PlannerRuntime>(&self, runtime: &R) -> (r: Option<Vec<u64>>)
        ensures
            match plan_outcome(runtime, self@, false) {
                Some(ids) => r matches Some(u) && u@ == uids_of(ids),
                None => r is None,
            },
    {
        self.execute(runtime).uids()
    }

    /// The outcomes of executing each child eagerly.
    fn children_exec<R: PlannerRuntime>(children: &Vec<CandidatePlan>, runtime: &R) -> (r: Vec<CandidateOutcome>)
        ensures
            r@.map_values(|o: CandidateOutcome| outcome_view(o)) == children_outcomes(runtime, plans_view(children@)),
        decreases children, 0int,
    {
        proof {
            lemma_plans_view(children@);
        }
        let ghost pv = plans_view(children@);
        let mut out: Vec<CandidateOutcome> = Vec::new();
        let mut i: usize = 0;
        while i < children.len()
            invariant
                i <= children@.len(),
                pv == plans_view(children@),
                pv.len() == children@.len(),
                forall|j: int| 0 <= j < children@.len() ==> #[trigger] pv[j] == children@[j]@,
                out@.map_values(|o: CandidateOutcome| outcome_view(o)) == children_outcomes(runtime, pv.take(i as int)),
            decreases children@.len() - i,
        {
            proof {
                assert(decreases_to!(*children => children@));
                assert(decreases_to!(children@ => children@[i as int]));
            }
            let o = children[i].exec_inner(runtime, true);
            let ghost before = out@;
            out.push(o);
            proof {
                let t = pv.take(i as int + 1);
                assert(t.drop_last() =~= pv.take(i as int));
                assert(t.last() == children@[i as int]@);
                assert(out@.map_values(|o: CandidateOutcome| outcome_view(o))
                    =~= before.map_values(|o: CandidateOutcome| outcome_view(o)).push(outcome_view(o)));
            }
            i = i + 1;
        }
        proof {
            assert(pv.take(children@.len() as int) =~= pv);
        }
        out
    }

    fn exec_inner<R: PlannerRuntime>(&self, runtime: &R, eager: bool) -> (r: CandidateOutcome)
        ensures
            outcome_view(r) == plan_outcome(runtime, self@, eager),
        decreases self,
    {
        let t = self.type_label.as_str();
        match &self.source {
            CandidateSource::FullTypeScan => {
                if !eager {
                    return CandidateOutcome::NoNarrowing;
                }
                match runtime.scan_type(t, None, None) {
                    Ok(list) => CandidateOutcome::Narrowed(list),
                    Err(_) => CandidateOutcome::Narrowed(Vec::new()),
                }
            },
            CandidateSource::UniqueLookup { field, value } => match runtime.lookup_unique(t, field.as_str(), value) {
                Ok(Some(id)) => {
                    let mut v: Vec<EntityId> = Vec::new();
                    v.push(id);
                    proof {
                        assert(v@ =~= seq![id]);
                    }
                    CandidateOutcome::Narrowed(v)
                },
                Ok(None) => CandidateOutcome::Narrowed(Vec::new()),
                Err(_) => CandidateOutcome::NoNarrowing,
            },
            CandidateSource::OrderedIndexScan { field, direction } => match runtime.ordered_scan(t, field.as_str(), *direction, None, None) {
                Ok(list) => CandidateOutcome::Narrowed(list),
                Err(_) => CandidateOutcome::NoNarrowing,
            },
            CandidateSource::PredicatePushdown(predicate) => match runtime.candidate_ids(t, predicate) {
                Ok(Some(list)) => {
                    let u = uids_exec(&list);
                    CandidateOutcome::Narrowed(untyped_ids(&u))
                },
                _ => CandidateOutcome::NoNarrowing,
            },
            CandidateSource::TextIndex { field, op, query } => match runtime.text_search(t, field.as_str(), *op, query.as_str(), None) {
                Ok(list) => CandidateOutcome::Narrowed(list),
                Err(_) => CandidateOutcome::NoNarrowing,
            },
            CandidateSource::RelationExpansion { field, target_type, child_plan, inverse_field, child_raw_filter, child_uniques } => {
                let kids: Option<Vec<EntityId>> = match child_raw_filter {
                    Some(raw) => {
                        let req = NestedCandidateRequest {
                            target_type: target_type.clone(),
                            filter: crate::query_planner::physical_expr::copy_fields(raw),
                            uniques: clone_strings(child_uniques),
                        };
                        proof {
                            assert(crate::query_planner::traits::texts_of(req.uniques@) =~= texts_view(child_uniques@));
                        }
                        match runtime.nested_candidates(&req) {
                            Some(u) => Some(untyped_ids(&u)),
                            None => match runtime.scan_type(target_type.as_str(), None, None) {
                                Ok(list) => Some(list),
                                Err(_) => None,
                            },
                        }
                    },
                    None => {
                        proof {
                            assert(decreases_to!(*self => self.source));
                            assert(decreases_to!(self.source => self.source->child_plan));
                        }
                        match child_plan.exec_inner(runtime, true) {
                            CandidateOutcome::Narrowed(ids) => Some(ids),
                            CandidateOutcome::NoNarrowing => match runtime.scan_type(target_type.as_str(), None, None) {
                                Ok(list) => Some(list),
                                Err(_) => None,
                            },
                        }
                    },
                };
                match kids {
                    None => CandidateOutcome::Narrowed(Vec::new()),
                    Some(ids) => match runtime.reverse_related_ids(target_type.as_str(), inverse_field.as_str(), ids.as_slice()) {
                        Ok(parents) => CandidateOutcome::Narrowed(parents),
                        Err(_) => CandidateOutcome::NoNarrowing,
                    },
                }
            },
            CandidateSource::Intersection(children) => {
                proof {
                    assert(decreases_to!(*self => self.source));
                    assert(decreases_to!(self.source => self.source->Intersection_0));
                }
                let outs = Self::children_exec(children, runtime);
                let ghost ov = outs@.map_values(|o: CandidateOutcome| outcome_view(o));
                let mut outs = outs;
                let mut aborted = false;
                let mut acc: Option<Vec<u64>> = None;
                let mut k: usize = 0;
                let total = outs.len();
                proof {
                    assert(ov.take(0) =~= Seq::<Option<Seq<EntityId>>>::empty());
                }
                while outs.len() > 0
                    invariant
                        k + outs@.len() == total,
                        total == ov.len(),
                        forall|j: int| 0 <= j < outs@.len() ==> outcome_view(#[trigger] outs@[j]) == ov[k + j],
                        if aborted {
                            intersect_all(ov.take(k as int)) is None
                        } else {
                            intersect_all(ov.take(k as int)) == Some(match acc { Some(u) => Some(u@), None => None::<Seq<u64>> })
                        },
                    decreases outs@.len(),
                {
                    let ghost before = outs@;
                    let o = outs.remove(0);
                    proof {
                        assert(outcome_view(o) == ov[k as int]);
                        assert forall|j: int| 0 <= j < outs@.len() implies outcome_view(#[trigger] outs@[j]) == ov[k + 1 + j] by {
                            assert(outs@[j] == before[j + 1]);
                        }
                        let tk = ov.take(k as int + 1);
                        assert(tk.drop_last() =~= ov.take(k as int));
                        assert(tk.last() == ov[k as int]);
                    }
                    if !aborted {
                        match o {
                            CandidateOutcome::Narrowed(ids) => {
                                match acc {
                                    None => {
                                        let d = dedup_sorted(ids);
                                        acc = Some(uids_exec(&d));
                                    },
                                    Some(cur) => {
                                        acc = Some(keep_members_exec(cur, &ids));
                                    },
                                }
                            },
                            CandidateOutcome::NoNarrowing => {
                                if acc.is_none() {
                                    aborted = true;
                                }
                            },
                        }
                    }
                    k = k + 1;
                }
                proof {
                    assert(ov.take(total as int) =~= ov);
                }
                if aborted {
                    return CandidateOutcome::Narrowed(Vec::new());
                }
                match acc {
                    Some(u) => CandidateOutcome::Narrowed(untyped_ids(&u)),
                    None => CandidateOutcome::Narrowed(Vec::new()),
                }
            },
            CandidateSource::Union(children) => {
                proof {
                    assert(decreases_to!(*self => self.source));
                    assert(decreases_to!(self.source => self.source->Union_0));
                }
                let outs = Self::children_exec(children, runtime);
                let ghost ov = outs@.map_values(|o: CandidateOutcome| outcome_view(o));
                let mut merged: Vec<EntityId> = Vec::new();
                let mut any = false;
                let mut k: usize = 0;
                proof {
                    assert(ov.take(0) =~= Seq::<Option<Seq<EntityId>>>::empty());
                }
                while k < outs.len()
                    invariant
                        k <= outs@.len(),
                        ov == outs@.map_values(|o: CandidateOutcome| outcome_view(o)),
                        any == (exists|j: int| 0 <= j < k && ov[j] is Some),
                        merged@ == first_per_uid(narrowed_concat(ov.take(k as int))),
                    decreases outs@.len() - k,
                {
                    let ghost pre = narrowed_concat(ov.take(k as int));
                    proof {
                        let tk = ov.take(k as int + 1);
                        assert(tk.drop_last() =~= ov.take(k as int));
                        assert(tk.last() == ov[k as int]);
                    }
                    match &outs[k] {
                        CandidateOutcome::Narrowed(ids) => {
                            any = true;
                            let mut j: usize = 0;
                            proof {
                                assert(pre + ids@.take(0) =~= pre);
                            }
                            while j < ids.len()
                                invariant
                                    j <= ids@.len(),
                                    merged@ == first_per_uid(pre + ids@.take(j as int)),
                                decreases ids@.len() - j,
                            {
                                proof {
                                    let c = pre + ids@.take(j as int + 1);
                                    assert(c.drop_last() =~= pre + ids@.take(j as int));
                                    assert(c.last() == ids@[j as int]);
                                }
                                if !has_uid(&merged, ids[j].uid) {
                                    merged.push(ids[j].duplicate());
                                }
                                j = j + 1;
                            }
                            proof {
                                assert(ids@.take(ids@.len() as int) =~= ids@);
                                assert(narrowed_concat(ov.take(k as int + 1)) =~= pre + ids@);
                            }
                        },
                        CandidateOutcome::NoNarrowing => {
                            proof {
                                assert(narrowed_concat(ov.take(k as int + 1)) =~= pre);
                            }
                        },
                    }
                    k = k + 1;
                }
                proof {
                    assert(ov.take(outs@.len() as int) =~= ov);
                }
                if any {
                    CandidateOutcome::Narrowed(merged)
                } else {
                    CandidateOutcome::NoNarrowing
                }
            },
        }
    }
}

} // verus!
