//! Leaf and set-composition source operators.
use vstd::prelude::*;
use crate::query_planner::ir::{
    opt_cursor_view, path_text, predicate_view, untyped_id, CursorValue, EntityId, FilterOp,
    FilterPredicate, QueryValue, SortDirection,
};
use crate::query_planner::value_text::{append_value_debug, value_debug};
use crate::query_planner::lowering::{lower_filter_map, lower_map};
use crate::query_planner::plan::{CandidatePlan, CandidateSource, PlanView, SourceView, source_view, plans_view, lemma_plans_view};
use crate::query_planner::planner::is_empty_and;
use super::filter::FilterOperator;
use crate::render::append_debug_option;
use crate::render::{concat_num, decimal};
use super::{
    read_result, PlannerError, MAX_DEPTH,
    batches_view, children_hints, clock_now, context_extends, flatten_batches, flow_of, make_stat,
    run_children, CardinalityHint, ExecContext, FlowResult, Operator, OperatorKind, OutputOrdering,
    RowBatch,
};
use crate::query_planner::traits::uids_of;
use crate::query_planner::traits::PlannerRuntime;

verus! {

/// Materialized id list emitted as a single batch, optionally declaring an
/// ordering so downstream sort elimination still applies.
pub struct VecSource {
    pub label: String,
    pub ids: Vec<EntityId>,
    pub ordering: OutputOrdering,
}

fn ids_from_uids(uids: Vec<u64>) -> (ids: Vec<EntityId>)
    ensures
        ids@.len() == uids@.len(),
        forall|i: int| 0 <= i < uids@.len() ==> ids@[i] == untyped_id(uids@[i]),
{
    let mut ids: Vec<EntityId> = Vec::new();
    let mut i: usize = 0;
    while i < uids.len()
        invariant
            i <= uids@.len(),
            ids@.len() == i,
            forall|j: int| 0 <= j < i ==> ids@[j] == untyped_id(uids@[j]),
        decreases uids@.len() - i,
    {
        ids.push(EntityId::new(uids[i]));
        i = i + 1;
    }
    ids
}

impl VecSource {
    pub fn new(label: &str, ids: Vec<u64>) -> (r: Self)
        ensures
            r.label@ == label@,
            r.ids@.len() == ids@.len(),
            forall|i: int| 0 <= i < ids@.len() ==> r.ids@[i] == untyped_id(ids@[i]),
            r.ordering is Unordered,
    {
        VecSource { label: String::from_str(label), ids: ids_from_uids(ids), ordering: OutputOrdering::Unordered }
    }

    pub fn ordered(label: &str, ids: Vec<u64>, field: &str, direction: SortDirection) -> (r: Self)
        ensures
            r.label@ == label@,
            r.ids@.len() == ids@.len(),
            forall|i: int| 0 <= i < ids@.len() ==> r.ids@[i] == untyped_id(ids@[i]),
            (r.ordering matches OutputOrdering::Sorted { field: f, direction: d } && f@ == field@ && d == direction),
    {
        VecSource {
            label: String::from_str(label),
            ids: ids_from_uids(ids),
            ordering: OutputOrdering::Sorted { field: String::from_str(field), direction },
        }
    }

    pub fn kind(&self) -> (k: OperatorKind)
        ensures
            k == OperatorKind::Scan,
    {
        OperatorKind::Scan
    }

    /// The explain detail line.
    pub open spec fn describe(self) -> Seq<char> {
        "vec_source "@ + self.label@ + " n="@ + decimal(self.ids@.len())
    }

    pub fn detail(&self) -> (s: String)
        ensures
            s@ == self.describe(),
    {
        let mut s = String::from_str("vec_source ");
        s.append(self.label.as_str());
        s.append(" n=");
        crate::render::append_decimal(&mut s, self.ids.len() as u64);
        s
    }

    pub fn cardinality(&self) -> (c: CardinalityHint)
        ensures
            c == CardinalityHint::Bounded(self.ids@.len() as usize),
    {
        CardinalityHint::Bounded(self.ids.len())
    }

    pub fn output_ordering(&self) -> (o: OutputOrdering)
        ensures
            o == self.ordering,
    {
        self.ordering.duplicate()
    }

    pub fn execute<R: PlannerRuntime>(&self, ctx: &mut ExecContext<R>) -> (r: FlowResult<Vec<RowBatch>>)
        ensures
            flow_of(r) == Operator::Values(*self).spec_execute(old(ctx).spec_runtime(), old(ctx).spec_depth()),
            context_extends(*old(ctx), *final(ctx)),
    {
        let start = clock_now();
        let mut ids: Vec<EntityId> = Vec::new();
        let mut i: usize = 0;
        while i < self.ids.len()
            invariant
                i <= self.ids@.len(),
                ids@ == self.ids@.take(i as int),
            decreases self.ids@.len() - i,
        {
            ids.push(self.ids[i].duplicate());
            proof {
                assert(ids@ =~= self.ids@.take(i as int + 1));
            }
            i = i + 1;
        }
        proof {
            assert(ids@ =~= self.ids@);
        }
        let n = ids.len();
        ctx.record(make_stat("scan", self.detail(), 0, n, &start, Vec::new()));
        let mut out: Vec<RowBatch> = Vec::new();
        out.push(RowBatch(ids));
        proof {
            assert(super::batches_view(out@) =~= seq![self.ids@]);
        }
        FlowResult::Rows(out)
    }
}


/// Inserts `e` into an id sequence kept in ascending uid order; an id whose
/// uid is already present leaves the sequence unchanged.
pub open spec fn insert_by_uid(s: Seq<EntityId>, e: EntityId) -> Seq<EntityId>
    decreases s.len(),
{
    if s.len() == 0 {
        seq![e]
    } else if e.uid < s[0].uid {
        seq![e] + s
    } else if e.uid == s[0].uid {
        s
    } else {
        seq![s[0]] + insert_by_uid(s.drop_first(), e)
    }
}

/// The distinct-uid ids of `all` in ascending uid order, keeping the first
/// id seen for each uid.
pub open spec fn union_ids(all: Seq<EntityId>) -> Seq<EntityId>
    decreases all.len(),
{
    if all.len() == 0 {
        Seq::empty()
    } else {
        insert_by_uid(union_ids(all.drop_last()), all.last())
    }
}

/// Keeps the uids that occur among `ids`.
pub open spec fn keep_members(kept: Seq<u64>, ids: Seq<EntityId>) -> Seq<u64> {
    kept.filter(|u: u64| uids_of(ids).contains(u))
}

/// `base` narrowed by each id sequence of `later` in turn.
pub open spec fn narrow(base: Seq<u64>, later: Seq<Seq<EntityId>>) -> Seq<u64>
    decreases later.len(),
{
    if later.len() == 0 {
        base
    } else {
        keep_members(narrow(base, later.drop_last()), later.last())
    }
}

/// Ascending distinct uids present in every child's rows, as untyped ids;
/// nothing when no child produced rows.
pub open spec fn intersection_ids(payloads: Seq<Seq<Seq<EntityId>>>) -> Seq<EntityId> {
    if payloads.len() == 0 {
        Seq::empty()
    } else {
        narrow(
            uids_of(union_ids(payloads[0].flatten())),
            payloads.drop_first().map_values(|p: Seq<Seq<EntityId>>| p.flatten()),
        ).map_values(|u: u64| untyped_id(u))
    }
}

/// Tightest of a sequence of hints (`Unbounded` for none).
pub open spec fn tightest_of(hints: Seq<CardinalityHint>) -> CardinalityHint {
    hints.fold_left(CardinalityHint::Unbounded, |acc: CardinalityHint, h: CardinalityHint| tighter(acc, h))
}

/// The tighter of two bounds: `AtMostOne` beats any other, the smaller of
/// two bounds wins, and `Unbounded` gives way to anything.
pub open spec fn tighter(acc: CardinalityHint, h: CardinalityHint) -> CardinalityHint {
    match (acc, h) {
        (CardinalityHint::AtMostOne, _) => CardinalityHint::AtMostOne,
        (_, CardinalityHint::AtMostOne) => CardinalityHint::AtMostOne,
        (CardinalityHint::Bounded(a), CardinalityHint::Bounded(b)) => CardinalityHint::Bounded(if b < a { b } else { a }),
        (CardinalityHint::Bounded(a), CardinalityHint::Unbounded) => CardinalityHint::Bounded(a),
        (CardinalityHint::Unbounded, x) => x,
    }
}

/// The tightest bound of a sequence of hints: `AtMostOne` when one hint
/// is; otherwise, when some hint is bounded, the smallest bound among
/// them; otherwise `Unbounded`.
pub proof fn lemma_tightest_of(hints: Seq<CardinalityHint>)
    ensures
        (exists|i: int| 0 <= i < hints.len() && hints[i] is AtMostOne) ==> tightest_of(hints) is AtMostOne,
        !(exists|i: int| 0 <= i < hints.len() && hints[i] is AtMostOne)
            && (exists|i: int| 0 <= i < hints.len() && hints[i] is Bounded)
            ==> (tightest_of(hints) matches CardinalityHint::Bounded(n)
                && (exists|i: int| 0 <= i < hints.len() && hints[i] == CardinalityHint::Bounded(n))
                && forall|i: int| 0 <= i < hints.len() ==> (#[trigger] hints[i] matches CardinalityHint::Bounded(m) ==> n <= m)),
        (forall|i: int| 0 <= i < hints.len() ==> #[trigger] hints[i] is Unbounded) ==> tightest_of(hints) is Unbounded,
    decreases hints.len(),
{
    if hints.len() > 0 {
        let init = hints.drop_last();
        lemma_tightest_of(init);
        assert(tightest_of(hints) == tighter(tightest_of(init), hints.last()));
        assert forall|i: int| 0 <= i < init.len() implies #[trigger] init[i] == hints[i] by {}
        if exists|i: int| 0 <= i < hints.len() && hints[i] is AtMostOne {
            let i = choose|i: int| 0 <= i < hints.len() && hints[i] is AtMostOne;
            if i < init.len() {
                assert(init[i] is AtMostOne);
            }
        }
        if !(exists|i: int| 0 <= i < hints.len() && hints[i] is AtMostOne) {
            assert(forall|i: int| 0 <= i < init.len() ==> !(#[trigger] init[i] is AtMostOne)) by {
                assert forall|i: int| 0 <= i < init.len() implies !(#[trigger] init[i] is AtMostOne) by {
                    assert(init[i] == hints[i]);
                }
            }
            if exists|i: int| 0 <= i < hints.len() && hints[i] is Bounded {
                let last = hints.len() - 1;
                if exists|i: int| 0 <= i < init.len() && init[i] is Bounded {
                    let j = choose|i: int| 0 <= i < init.len() && init[i] is Bounded;
                    assert(hints[j] is Bounded);
                    let a = tightest_of(init)->Bounded_0;
                    let w = choose|i: int| 0 <= i < init.len() && init[i] == CardinalityHint::Bounded(a);
                    assert(hints[w] == CardinalityHint::Bounded(a));
                    assert(!(hints[last] is AtMostOne));
                    match hints[last] {
                        CardinalityHint::Bounded(b) => {
                            if b < a {
                                assert forall|i: int| 0 <= i < hints.len() implies (#[trigger] hints[i] matches CardinalityHint::Bounded(m) ==> b <= m) by {
                                    if i < init.len() {
                                        assert(init[i] == hints[i]);
                                    }
                                }
                            } else {
                                assert forall|i: int| 0 <= i < hints.len() implies (#[trigger] hints[i] matches CardinalityHint::Bounded(m) ==> a <= m) by {
                                    if i < init.len() {
                                        assert(init[i] == hints[i]);
                                    }
                                }
                            }
                        },
                        _ => {
                            assert forall|i: int| 0 <= i < hints.len() implies (#[trigger] hints[i] matches CardinalityHint::Bounded(m) ==> a <= m) by {
                                if i < init.len() {
                                    assert(init[i] == hints[i]);
                                }
                            }
                        },
                    }
                } else {
                    assert forall|i: int| 0 <= i < init.len() implies #[trigger] init[i] is Unbounded by {
                        assert(!(init[i] is AtMostOne));
                        assert(!(init[i] is Bounded));
                    }
                    assert(tightest_of(init) is Unbounded);
                    let k = choose|i: int| 0 <= i < hints.len() && hints[i] is Bounded;
                    if k < init.len() {
                        assert(init[k] is Bounded);
                    }
                    assert(k == last);
                    assert forall|i: int| 0 <= i < hints.len() implies (#[trigger] hints[i] matches CardinalityHint::Bounded(m) ==> hints[last]->Bounded_0 <= m) by {
                        if i < init.len() {
                            assert(init[i] == hints[i]);
                            assert(!(init[i] is Bounded));
                        }
                    }
                }
            }
        }
    }
}

/// Inserts `e` at its uid position in `s`.
fn insert_uid(s: &mut Vec<EntityId>, e: EntityId)
    ensures
        final(s)@ == insert_by_uid(old(s)@, e),
{
    let ghost orig = s@;
    proof {
        assert(orig.skip(0) =~= orig);
        assert(orig.take(0) + insert_by_uid(orig.skip(0), e) =~= insert_by_uid(orig, e));
    }
    let mut i: usize = 0;
    while i < s.len() && s[i].uid < e.uid
        invariant
            i <= s@.len(),
            s@ == orig,
            insert_by_uid(orig, e) == orig.take(i as int) + insert_by_uid(orig.skip(i as int), e),
        decreases s@.len() - i,
    {
        proof {
            let rest = orig.skip(i as int);
            assert(rest.drop_first() =~= orig.skip(i as int + 1));
            assert(orig.take(i as int) + seq![rest[0]] =~= orig.take(i as int + 1));
            assert(orig.take(i as int) + (seq![rest[0]] + insert_by_uid(rest.drop_first(), e))
                =~= orig.take(i as int + 1) + insert_by_uid(orig.skip(i as int + 1), e));
        }
        i = i + 1;
    }
    if i < s.len() && s[i].uid == e.uid {
        proof {
            assert(orig.take(i as int) + orig.skip(i as int) =~= orig);
        }
        return;
    }
    proof {
        if i < orig.len() {
            assert(orig.take(i as int) + (seq![e] + orig.skip(i as int)) =~= orig.insert(i as int, e));
        } else {
            assert(orig.take(i as int) + seq![e] =~= orig.insert(i as int, e));
        }
    }
    s.insert(i, e);
}

/// Distinct-uid ids of `all`, ascending by uid, first id per uid kept.
pub fn dedup_sorted(all: Vec<EntityId>) -> (out: Vec<EntityId>)
    ensures
        out@ == union_ids(all@),
{
    let mut out: Vec<EntityId> = Vec::new();
    let mut i: usize = 0;
    while i < all.len()
        invariant
            i <= all@.len(),
            out@ == union_ids(all@.take(i as int)),
        decreases all@.len() - i,
    {
        proof {
            assert(all@.take(i as int + 1).drop_last() =~= all@.take(i as int));
        }
        insert_uid(&mut out, all[i].duplicate());
        i = i + 1;
    }
    proof {
        assert(all@.take(all@.len() as int) =~= all@);
    }
    out
}

/// True when some id carries `uid`.
pub(crate) fn has_uid(ids: &Vec<EntityId>, uid: u64) -> (b: bool)
    ensures
        b == uids_of(ids@).contains(uid),
{
    let mut i: usize = 0;
    while i < ids.len()
        invariant
            i <= ids@.len(),
            forall|j: int| 0 <= j < i ==> ids@[j].uid != uid,
        decreases ids@.len() - i,
    {
        if ids[i].uid == uid {
            proof {
                assert(uids_of(ids@)[i as int] == uid);
            }
            return true;
        }
        i = i + 1;
    }
    proof {
        if uids_of(ids@).contains(uid) {
            let j = choose|j: int| 0 <= j < uids_of(ids@).len() && uids_of(ids@)[j] == uid;
            assert(ids@[j].uid == uid);
        }
    }
    false
}

/// Keeps the uids of `kept` that occur among `ids`.
pub(crate) fn keep_members_exec(kept: Vec<u64>, ids: &Vec<EntityId>) -> (out: Vec<u64>)
    ensures
        out@ == keep_members(kept@, ids@),
{
    let mut out: Vec<u64> = Vec::new();
    let mut i: usize = 0;
    while i < kept.len()
        invariant
            i <= kept@.len(),
            out@ == keep_members(kept@.take(i as int), ids@),
        decreases kept@.len() - i,
    {
        proof {
            assert(kept@.take(i as int + 1) =~= kept@.take(i as int).push(kept@[i as int]));
            kept@.take(i as int).lemma_filter_push(kept@[i as int], |u: u64| uids_of(ids@).contains(u));
        }
        if has_uid(ids, kept[i]) {
            out.push(kept[i]);
        }
        i = i + 1;
    }
    proof {
        assert(kept@.take(kept@.len() as int) =~= kept@);
    }
    out
}

/// Union of source outputs: concatenated, deduplicated by uid, emitted in
/// ascending-uid order.
pub struct UnionSources {
    pub sources: Vec<Box<Operator>>,
}

impl UnionSources {
    pub fn kind(&self) -> (k: OperatorKind)
        ensures
            k == OperatorKind::Union,
    {
        OperatorKind::Union
    }

    /// The explain detail line.
    pub open spec fn describe(self) -> Seq<char> {
        "union sources="@ + decimal(self.sources@.len())
    }

    pub fn detail(&self) -> (s: String)
        ensures
            s@ == self.describe(),
    {
        let mut s = String::from_str("union sources=");
        crate::render::append_decimal(&mut s, self.sources.len() as u64);
        s
    }

    /// The loosest bound among the sources.
    pub fn cardinality(&self) -> (c: CardinalityHint)
        ensures
            c == CardinalityHint::combined(Operator::spec_hints(self.sources@, self.sources@.len() as int)),
        decreases self,
    {
        let hints = children_hints(&self.sources);
        CardinalityHint::combine(hints.as_slice())
    }

    pub fn execute<R: PlannerRuntime>(&self, ctx: &mut ExecContext<R>) -> (r: FlowResult<Vec<RowBatch>>)
        ensures
            flow_of(r) == Operator::Union(*self).spec_execute(old(ctx).spec_runtime(), old(ctx).spec_depth()),
            context_extends(*old(ctx), *final(ctx)),
        decreases self,
    {
        let start = clock_now();
        let payloads = match run_children(&self.sources, ctx) {
            FlowResult::Rows(p) => p,
            FlowResult::Break => return FlowResult::Break,
            FlowResult::Continue => return FlowResult::Break,
            FlowResult::Error(e) => return FlowResult::Error(e),
        };
        let ghost pv = payloads@.map_values(|b: Vec<RowBatch>| batches_view(b@));
        let mut all: Vec<EntityId> = Vec::new();
        let mut payloads = payloads;
        let mut k: usize = 0;
        let total_len = payloads.len();
        let ghost total: nat = total_len as nat;
        while payloads.len() > 0
            invariant
                pv.len() == total,
                payloads@.len() + k == total,
                total <= usize::MAX,
                forall|j: int| 0 <= j < payloads@.len() ==> batches_view(payloads@[j]@) == pv[k + j],
                all@ == pv.take(k as int).flatten().flatten(),
            decreases payloads@.len(),
        {
            let ghost before = payloads@;
            let b = payloads.remove(0);
            proof {
                assert(batches_view(b@) == pv[k as int]);
                assert forall|j: int| 0 <= j < payloads@.len() implies batches_view(payloads@[j]@) == pv[k + 1 + j] by {
                    assert(payloads@[j] == before[j + 1]);
                }
            }
            let mut rows = flatten_batches(b);
            all.append(&mut rows);
            proof {
                let t = pv.take(k as int + 1);
                assert(t.drop_last() =~= pv.take(k as int));
                t.drop_last().lemma_flatten_push(t.last());
                assert(t.drop_last().push(t.last()) =~= t);
                vstd::seq_lib::lemma_flatten_concat(t.drop_last().flatten(), t.last());
            }
            k = k + 1;
        }
        proof {
            assert(pv.take(k as int) =~= pv);
        }
        let merged = dedup_sorted(all);
        let n = merged.len();
        ctx.record(make_stat("union", self.detail(), 0, n, &start, Vec::new()));
        let mut out: Vec<RowBatch> = Vec::new();
        out.push(RowBatch(merged));
        proof {
            assert(batches_view(out@) =~= seq![union_ids(pv.flatten().flatten())]);
        }
        FlowResult::Rows(out)
    }
}

/// Intersection of source outputs: uids present in every source that
/// produced rows, emitted in ascending-uid order as untyped ids.
pub struct IntersectionSources {
    pub sources: Vec<Box<Operator>>,
}

impl IntersectionSources {
    /// Tightest child bound wins (the result is a subset of every input).
    fn tightest(hints: &[CardinalityHint]) -> (c: CardinalityHint)
        ensures
            c == tightest_of(hints@),
    {
        let mut acc = CardinalityHint::Unbounded;
        let mut i: usize = 0;
        while i < hints.len()
            invariant
                i <= hints@.len(),
                acc == tightest_of(hints@.take(i as int)),
            decreases hints@.len() - i,
        {
            proof {
                assert(hints@.take(i as int + 1).drop_last() =~= hints@.take(i as int));
            }
            let h = hints[i];
            acc = match (acc, h) {
                (CardinalityHint::AtMostOne, _) => CardinalityHint::AtMostOne,
                (_, CardinalityHint::AtMostOne) => CardinalityHint::AtMostOne,
                (CardinalityHint::Bounded(a), CardinalityHint::Bounded(b)) => CardinalityHint::Bounded(if b < a { b } else { a }),
                (CardinalityHint::Bounded(a), CardinalityHint::Unbounded) => CardinalityHint::Bounded(a),
                (CardinalityHint::Unbounded, x) => x,
            };
            i = i + 1;
        }
        proof {
            assert(hints@.take(hints@.len() as int) =~= hints@);
        }
        acc
    }

    pub fn kind(&self) -> (k: OperatorKind)
        ensures
            k == OperatorKind::Union,
    {
        OperatorKind::Union
    }

    /// The explain detail line.
    pub open spec fn describe(self) -> Seq<char> {
        "intersection sources="@ + decimal(self.sources@.len())
    }

    pub fn detail(&self) -> (s: String)
        ensures
            s@ == self.describe(),
    {
        let mut s = String::from_str("intersection sources=");
        crate::render::append_decimal(&mut s, self.sources.len() as u64);
        s
    }

    pub fn cardinality(&self) -> (c: CardinalityHint)
        ensures
            c == tightest_of(Operator::spec_hints(self.sources@, self.sources@.len() as int)),
        decreases self,
    {
        let hints = children_hints(&self.sources);
        Self::tightest(hints.as_slice())
    }

    pub fn execute<R: PlannerRuntime>(&self, ctx: &mut ExecContext<R>) -> (r: FlowResult<Vec<RowBatch>>)
        ensures
            flow_of(r) == Operator::Intersection(*self).spec_execute(old(ctx).spec_runtime(), old(ctx).spec_depth()),
            context_extends(*old(ctx), *final(ctx)),
        decreases self,
    {
        let start = clock_now();
        let payloads = match run_children(&self.sources, ctx) {
            FlowResult::Rows(p) => p,
            FlowResult::Break => return FlowResult::Break,
            FlowResult::Continue => return FlowResult::Break,
            FlowResult::Error(e) => return FlowResult::Error(e),
        };
        let ghost pv = payloads@.map_values(|b: Vec<RowBatch>| batches_view(b@));
        let mut payloads = payloads;
        let mut pulled: usize = 0;
        let mut result: Vec<EntityId> = Vec::new();
        if payloads.len() > 0 {
            let ghost later = pv.drop_first().map_values(|p: Seq<Seq<EntityId>>| p.flatten());
            let first = payloads.remove(0);
            let first_rows = flatten_batches(first);
            let base_ids = dedup_sorted(first_rows);
            pulled = base_ids.len();
            let mut kept: Vec<u64> = Vec::new();
            let mut i: usize = 0;
            while i < base_ids.len()
                invariant
                    i <= base_ids@.len(),
                    kept@ == uids_of(base_ids@.take(i as int)),
                decreases base_ids@.len() - i,
            {
                kept.push(base_ids[i].uid);
                proof {
                    assert(uids_of(base_ids@.take(i as int + 1)) =~= uids_of(base_ids@.take(i as int)).push(base_ids@[i as int].uid));
                }
                i = i + 1;
            }
            proof {
                assert(base_ids@.take(base_ids@.len() as int) =~= base_ids@);
                assert(narrow(kept@, later.take(0)) == kept@);
            }
            let ghost base = kept@;
            let mut k: usize = 0;
            let ghost rest_total = payloads@.len();
            while payloads.len() > 0
                invariant
                    later.len() == rest_total,
                    payloads@.len() + k == rest_total,
                    rest_total <= usize::MAX,
                    forall|j: int| 0 <= j < payloads@.len() ==> batches_view(payloads@[j]@).flatten() == later[k + j],
                    kept@ == narrow(base, later.take(k as int)),
                decreases payloads@.len(),
            {
                let ghost before = payloads@;
                let b = payloads.remove(0);
                proof {
                    assert forall|j: int| 0 <= j < payloads@.len() implies batches_view(payloads@[j]@).flatten() == later[k + 1 + j] by {
                        assert(payloads@[j] == before[j + 1]);
                    }
                    assert(later.take(k as int + 1).drop_last() =~= later.take(k as int));
                }
                let rows = flatten_batches(b);
                if rows.len() < usize::MAX - pulled {
                    pulled = pulled + rows.len();
                }
                kept = keep_members_exec(kept, &rows);
                k = k + 1;
            }
            proof {
                assert(later.take(k as int) =~= later);
            }
            let mut j: usize = 0;
            while j < kept.len()
                invariant
                    j <= kept@.len(),
                    result@ == kept@.take(j as int).map_values(|u: u64| untyped_id(u)),
                decreases kept@.len() - j,
            {
                result.push(EntityId::new(kept[j]));
                proof {
                    assert(kept@.take(j as int + 1).map_values(|u: u64| untyped_id(u))
                        =~= kept@.take(j as int).map_values(|u: u64| untyped_id(u)).push(untyped_id(kept@[j as int])));
                }
                j = j + 1;
            }
            proof {
                assert(kept@.take(kept@.len() as int) =~= kept@);
            }
        }
        let n = result.len();
        ctx.record(make_stat("union", self.detail(), pulled, n, &start, Vec::new()));
        let mut out: Vec<RowBatch> = Vec::new();
        out.push(RowBatch(result));
        proof {
            assert(batches_view(out@) =~= seq![intersection_ids(pv)]);
        }
        FlowResult::Rows(out)
    }
}


/// Message of the nesting-depth failure.
pub open spec fn nesting_message() -> Seq<char> {
    "relation expansion nesting exceeds depth "@ + decimal(MAX_DEPTH as nat)
}

/// BM25 text search over a field's full-text index, best match first.
pub struct TextBM25Scan {
    pub type_label: String,
    pub field: String,
    pub op: FilterOp,
    pub query: String,
    pub limit: Option<usize>,
}

impl TextBM25Scan {
    pub fn new(type_label: &str, field: &str, op: FilterOp, query: &str) -> (r: Self)
        ensures
            r.type_label@ == type_label@,
            r.field@ == field@,
            r.op == op,
            r.query@ == query@,
            r.limit is None,
    {
        TextBM25Scan {
            type_label: String::from_str(type_label),
            field: String::from_str(field),
            op,
            query: String::from_str(query),
            limit: None,
        }
    }

    pub fn kind(&self) -> (k: OperatorKind)
        ensures
            k == OperatorKind::Scan,
    {
        OperatorKind::Scan
    }

    /// The explain detail line.
    pub open spec fn describe(self) -> Seq<char> {
        "text_bm25_scan type="@ + self.type_label@ + " field="@ + self.field@ + " op="@
            + self.op.name() + " k="@ + crate::render::debug_option(
            match self.limit { Some(k) => Some(k as u64), None => None::<u64> })
    }

    pub fn detail(&self) -> (s: String)
        ensures
            s@ == self.describe(),
    {
        let mut s = String::from_str("text_bm25_scan type=");
        s.append(self.type_label.as_str());
        s.append(" field=");
        s.append(self.field.as_str());
        s.append(" op=");
        s.append(self.op.as_str());
        s.append(" k=");
        let k: Option<u64> = match self.limit {
            Some(k) => Some(k as u64),
            None => None,
        };
        append_debug_option(&mut s, k);
        s
    }

    /// Bounded by the requested top-k when one is set.
    pub fn cardinality(&self) -> (c: CardinalityHint)
        ensures
            c == match self.limit {
                Some(k) => CardinalityHint::Bounded(k),
                None => CardinalityHint::Unbounded,
            },
    {
        match self.limit {
            Some(k) => CardinalityHint::Bounded(k),
            None => CardinalityHint::Unbounded,
        }
    }

    pub fn execute<R: PlannerRuntime>(&self, ctx: &mut ExecContext<R>) -> (r: FlowResult<Vec<RowBatch>>)
        ensures
            flow_of(r) == Operator::TextSearch(*self).spec_execute(old(ctx).spec_runtime(), old(ctx).spec_depth()),
            context_extends(*old(ctx), *final(ctx)),
    {
        let start = clock_now();
        let read = ctx.runtime().text_search(
            self.type_label.as_str(),
            self.field.as_str(),
            self.op,
            self.query.as_str(),
            self.limit,
        );
        let n: usize = match &read {
            Ok(ids) => ids.len(),
            Err(_) => 0,
        };
        if read.is_ok() {
            ctx.record(make_stat("scan", self.detail(), 0, n, &start, Vec::new()));
        }
        read_result(read)
    }
}

/// Inverse edge expansion: runs the child pipeline one nesting level deeper,
/// maps the child ids to their parents through `inverse_field`, and emits
/// the distinct parents in ascending-uid order.
pub struct RelationExpandSource {
    pub input: Box<Operator>,
    pub target_type: String,
    pub inverse_field: String,
}

impl RelationExpandSource {
    pub fn kind(&self) -> (k: OperatorKind)
        ensures
            k == OperatorKind::Scan,
    {
        OperatorKind::Scan
    }

    /// The explain detail line.
    pub open spec fn describe(self) -> Seq<char> {
        "relation_expand target="@ + self.target_type@ + " inverse_field="@ + self.inverse_field@
    }

    pub fn detail(&self) -> (s: String)
        ensures
            s@ == self.describe(),
    {
        let mut s = String::from_str("relation_expand target=");
        s.append(self.target_type.as_str());
        s.append(" inverse_field=");
        s.append(self.inverse_field.as_str());
        s
    }

    pub fn cardinality(&self) -> (c: CardinalityHint)
        ensures
            c == CardinalityHint::Unbounded,
    {
        CardinalityHint::Unbounded
    }

    pub fn execute<R: PlannerRuntime>(&self, ctx: &mut ExecContext<R>) -> (r: FlowResult<Vec<RowBatch>>)
        ensures
            flow_of(r) == Operator::RelationExpand(*self).spec_execute(old(ctx).spec_runtime(), old(ctx).spec_depth()),
            context_extends(*old(ctx), *final(ctx)),
        decreases self,
    {
        let start = clock_now();
        if !ctx.enter_nested() {
            return FlowResult::Error(PlannerError::Unsupported(
                crate::render::decimal_string_with_prefix("relation expansion nesting exceeds depth ", MAX_DEPTH as u64),
            ));
        }
        let flow = self.input.execute(ctx);
        ctx.exit_nested();
        let mut child_ids: Vec<u64> = Vec::new();
        let ghost cids: Seq<u64>;
        match flow {
            FlowResult::Error(e) => return FlowResult::Error(e),
            FlowResult::Rows(batches) => {
                let rows = flatten_batches(batches);
                let mut i: usize = 0;
                while i < rows.len()
                    invariant
                        i <= rows@.len(),
                        child_ids@ == uids_of(rows@.take(i as int)),
                    decreases rows@.len() - i,
                {
                    child_ids.push(rows[i].uid);
                    proof {
                        assert(uids_of(rows@.take(i as int + 1)) =~= uids_of(rows@.take(i as int)).push(rows@[i as int].uid));
                    }
                    i = i + 1;
                }
                proof {
                    assert(rows@.take(rows@.len() as int) =~= rows@);
                    cids = child_ids@;
                }
            },
            _ => {
                proof {
                    cids = child_ids@;
                }
            },
        }
        let mut child_refs: Vec<EntityId> = Vec::new();
        let mut j: usize = 0;
        while j < child_ids.len()
            invariant
                j <= child_ids@.len(),
                child_refs@.len() == j,
                forall|k: int| 0 <= k < j ==> child_refs@[k].uid == child_ids@[k],
            decreases child_ids@.len() - j,
        {
            child_refs.push(EntityId::new(child_ids[j]));
            j = j + 1;
        }
        proof {
            assert(uids_of(child_refs@) =~= child_ids@);
        }
        let read = ctx.runtime().reverse_related_ids(
            self.target_type.as_str(),
            self.inverse_field.as_str(),
            child_refs.as_slice(),
        );
        match read {
            Ok(list) => {
                let parents = dedup_sorted(list);
                let rows_in = child_ids.len();
                let rows_out = parents.len();
                let mut notes: Vec<String> = Vec::new();
                let mut note = concat_num("expanded ", rows_in as u64, " children via inverse field ");
                note.append(self.inverse_field.as_str());
                notes.push(note);
                ctx.record(make_stat("scan", self.detail(), rows_in, rows_out, &start, notes));
                let mut out: Vec<RowBatch> = Vec::new();
                out.push(RowBatch(parents));
                proof {
                    assert(batches_view(out@) =~= seq![out@[0].0@]);
                }
                FlowResult::Rows(out)
            },
            Err(e) => FlowResult::Error(PlannerError::Storage(e)),
        }
    }
}

/// Ascending by uid, each uid once.
pub open spec fn ascending_ids(s: Seq<EntityId>) -> bool {
    forall|i: int, j: int| 0 <= i < j < s.len() ==> s[i].uid < s[j].uid
}

/// Strictly ascending.
pub open spec fn ascending_uids(s: Seq<u64>) -> bool {
    forall|i: int, j: int| 0 <= i < j < s.len() ==> s[i] < s[j]
}

/// Some id of `s` carries `u`.
pub open spec fn carries_uid(s: Seq<EntityId>, u: u64) -> bool {
    exists|i: int| 0 <= i < s.len() && #[trigger] s[i].uid == u
}

pub proof fn lemma_uids_contains(s: Seq<EntityId>, u: u64)
    ensures
        uids_of(s).contains(u) <==> carries_uid(s, u),
{
    if carries_uid(s, u) {
        let i = choose|i: int| 0 <= i < s.len() && #[trigger] s[i].uid == u;
        assert(uids_of(s)[i] == u);
    }
    if uids_of(s).contains(u) {
        let i = choose|i: int| 0 <= i < uids_of(s).len() && uids_of(s)[i] == u;
        assert(s[i].uid == u);
    }
}

proof fn lemma_insert_by_uid(s: Seq<EntityId>, e: EntityId)
    requires
        ascending_ids(s),
    ensures
        ascending_ids(insert_by_uid(s, e)),
        forall|u: u64| #[trigger] carries_uid(insert_by_uid(s, e), u) <==> (carries_uid(s, u) || u == e.uid),
        forall|x: EntityId| #[trigger] insert_by_uid(s, e).contains(x) ==> (s.contains(x) || x == e),
    decreases s.len(),
{
    let r = insert_by_uid(s, e);
    if s.len() == 0 {
        assert(r == seq![e]);
        assert forall|u: u64| carries_uid(r, u) <==> (carries_uid(s, u) || u == e.uid) by {
            if u == e.uid {
                assert(r[0].uid == u);
            }
        }
    } else if e.uid < s[0].uid {
        assert(r == seq![e] + s);
        assert forall|i: int, j: int| 0 <= i < j < r.len() implies r[i].uid < r[j].uid by {
            if i == 0 {
                assert(r[j] == s[j - 1]);
                if j - 1 > 0 {
                    assert(s[0].uid < s[j - 1].uid);
                }
            } else {
                assert(r[i] == s[i - 1] && r[j] == s[j - 1]);
            }
        }
        assert forall|u: u64| carries_uid(r, u) <==> (carries_uid(s, u) || u == e.uid) by {
            if carries_uid(r, u) {
                let i = choose|i: int| 0 <= i < r.len() && #[trigger] r[i].uid == u;
                if i > 0 {
                    assert(s[i - 1].uid == u);
                }
            }
            if carries_uid(s, u) {
                let i = choose|i: int| 0 <= i < s.len() && #[trigger] s[i].uid == u;
                assert(r[i + 1].uid == u);
            }
            if u == e.uid {
                assert(r[0].uid == u);
            }
        }
        assert forall|x: EntityId| r.contains(x) implies (s.contains(x) || x == e) by {
            let i = choose|i: int| 0 <= i < r.len() && r[i] == x;
            if i > 0 {
                assert(s[i - 1] == x);
            }
        }
    } else if e.uid == s[0].uid {
        assert(r == s);
        assert forall|u: u64| carries_uid(r, u) <==> (carries_uid(s, u) || u == e.uid) by {
            if u == e.uid {
                assert(s[0].uid == u);
            }
        }
    } else {
        let t = s.drop_first();
        assert forall|i: int, j: int| 0 <= i < j < t.len() implies t[i].uid < t[j].uid by {
            assert(t[i] == s[i + 1] && t[j] == s[j + 1]);
        }
        lemma_insert_by_uid(t, e);
        let it = insert_by_uid(t, e);
        assert(r == seq![s[0]] + it);
        assert forall|k: int| 0 <= k < it.len() implies s[0].uid < #[trigger] it[k].uid by {
            assert(carries_uid(it, it[k].uid));
            if it[k].uid != e.uid {
                assert(carries_uid(t, it[k].uid));
                let m = choose|m: int| 0 <= m < t.len() && #[trigger] t[m].uid == it[k].uid;
                assert(t[m] == s[m + 1]);
            }
        }
        assert forall|i: int, j: int| 0 <= i < j < r.len() implies r[i].uid < r[j].uid by {
            assert(r[j] == it[j - 1]);
            if i > 0 {
                assert(r[i] == it[i - 1]);
            }
        }
        assert forall|u: u64| carries_uid(r, u) <==> (carries_uid(s, u) || u == e.uid) by {
            if carries_uid(r, u) {
                let i = choose|i: int| 0 <= i < r.len() && #[trigger] r[i].uid == u;
                if i > 0 {
                    assert(it[i - 1].uid == u);
                    assert(carries_uid(it, u));
                    if u != e.uid {
                        let m = choose|m: int| 0 <= m < t.len() && #[trigger] t[m].uid == u;
                        assert(s[m + 1].uid == u);
                    }
                }
            }
            if carries_uid(s, u) {
                let i = choose|i: int| 0 <= i < s.len() && #[trigger] s[i].uid == u;
                if i == 0 {
                    assert(r[0].uid == u);
                } else {
                    assert(t[i - 1].uid == u);
                    assert(carries_uid(t, u));
                    assert(carries_uid(it, u));
                    let m = choose|m: int| 0 <= m < it.len() && #[trigger] it[m].uid == u;
                    assert(r[m + 1].uid == u);
                }
            }
            if u == e.uid {
                assert(carries_uid(it, u));
                let m = choose|m: int| 0 <= m < it.len() && #[trigger] it[m].uid == u;
                assert(r[m + 1].uid == u);
            }
        }
        assert forall|x: EntityId| r.contains(x) implies (s.contains(x) || x == e) by {
            let i = choose|i: int| 0 <= i < r.len() && r[i] == x;
            if i == 0 {
                assert(s[0] == x);
            } else {
                assert(it[i - 1] == x);
                assert(it.contains(x));
                if x != e {
                    let m = choose|m: int| 0 <= m < t.len() && t[m] == x;
                    assert(s[m + 1] == x);
                }
            }
        }
    }
}

/// The union of source rows is ascending by uid with each uid once, holds
/// exactly the uids of its input, and every id it emits comes from the
/// input.
pub proof fn lemma_union_ids(all: Seq<EntityId>)
    ensures
        ascending_ids(union_ids(all)),
        forall|u: u64| #[trigger] carries_uid(union_ids(all), u) <==> carries_uid(all, u),
        forall|x: EntityId| #[trigger] union_ids(all).contains(x) ==> all.contains(x),
    decreases all.len(),
{
    if all.len() > 0 {
        let init = all.drop_last();
        lemma_union_ids(init);
        lemma_insert_by_uid(union_ids(init), all.last());
        assert forall|u: u64| carries_uid(union_ids(all), u) <==> carries_uid(all, u) by {
            if carries_uid(init, u) {
                let i = choose|i: int| 0 <= i < init.len() && #[trigger] init[i].uid == u;
                assert(all[i].uid == u);
            }
            if u == all.last().uid {
                assert(all[all.len() - 1].uid == u);
            }
            if carries_uid(all, u) {
                let i = choose|i: int| 0 <= i < all.len() && #[trigger] all[i].uid == u;
                if i < init.len() {
                    assert(init[i].uid == u);
                }
            }
        }
        assert forall|x: EntityId| union_ids(all).contains(x) implies all.contains(x) by {
            if init.contains(x) {
                let i = choose|i: int| 0 <= i < init.len() && init[i] == x;
                assert(all[i] == x);
            } else {
                assert(all[all.len() - 1] == x);
            }
        }
    }
}

proof fn lemma_keep_members(kept: Seq<u64>, ids: Seq<EntityId>)
    requires
        ascending_uids(kept),
    ensures
        ascending_uids(keep_members(kept, ids)),
        forall|u: u64| #[trigger] keep_members(kept, ids).contains(u) <==> (kept.contains(u) && carries_uid(ids, u)),
    decreases kept.len(),
{
    let p = |u: u64| uids_of(ids).contains(u);
    if kept.len() == 0 {
        assert(kept.filter(p) =~= kept) by {
            reveal(Seq::filter);
        }
    } else {
        let init = kept.drop_last();
        let x = kept.last();
        assert(init.push(x) =~= kept);
        assert forall|i: int, j: int| 0 <= i < j < init.len() implies init[i] < init[j] by {
            assert(init[i] == kept[i] && init[j] == kept[j]);
        }
        lemma_keep_members(init, ids);
        init.lemma_filter_push(x, p);
        let sub = keep_members(init, ids);
        lemma_uids_contains(ids, x);
        assert forall|k: int| 0 <= k < sub.len() implies #[trigger] sub[k] < x by {
            assert(sub.contains(sub[k]));
            assert(keep_members(init, ids).contains(sub[k]));
            assert(init.contains(sub[k]));
            let m = choose|m: int| 0 <= m < init.len() && init[m] == sub[k];
            assert(kept[m] == sub[k]);
            assert(kept[kept.len() - 1] == x);
        }
        assert(keep_members(kept, ids) == if p(x) { sub.push(x) } else { sub });
        assert forall|u: u64| keep_members(kept, ids).contains(u) <==> (kept.contains(u) && carries_uid(ids, u)) by {
            lemma_uids_contains(ids, u);
            if kept.contains(u) && u != x {
                let m = choose|m: int| 0 <= m < kept.len() && kept[m] == u;
                assert(init[m] == u);
            }
            if init.contains(u) {
                let m = choose|m: int| 0 <= m < init.len() && init[m] == u;
                assert(kept[m] == u);
            }
            if u == x {
                assert(kept[kept.len() - 1] == u);
                if p(x) {
                    assert(sub.push(x)[sub.len() as int] == u);
                }
            }
            if p(x) && sub.push(x).contains(u) && u != x {
                let m = choose|m: int| 0 <= m < sub.push(x).len() && sub.push(x)[m] == u;
                assert(sub[m] == u);
            }
            if p(x) && sub.contains(u) {
                let m = choose|m: int| 0 <= m < sub.len() && sub[m] == u;
                assert(sub.push(x)[m] == u);
            }
        }
        if p(x) {
            assert forall|i: int, j: int| 0 <= i < j < sub.push(x).len() implies sub.push(x)[i] < sub.push(x)[j] by {
                if j == sub.len() {
                    assert(sub[i] < x);
                }
            }
        }
    }
}

/// `base` narrowed by each id sequence of `later` keeps its order and
/// holds exactly the uids of `base` present in every sequence of `later`.
proof fn lemma_narrow(base: Seq<u64>, later: Seq<Seq<EntityId>>)
    requires
        ascending_uids(base),
    ensures
        ascending_uids(narrow(base, later)),
        forall|u: u64| #[trigger] narrow(base, later).contains(u) <==>
            (base.contains(u) && forall|k: int| 0 <= k < later.len() ==> carries_uid(#[trigger] later[k], u)),
    decreases later.len(),
{
    if later.len() > 0 {
        let init = later.drop_last();
        lemma_narrow(base, init);
        lemma_keep_members(narrow(base, init), later.last());
        assert forall|u: u64| narrow(base, later).contains(u) <==>
            (base.contains(u) && forall|k: int| 0 <= k < later.len() ==> carries_uid(#[trigger] later[k], u)) by {
            if narrow(base, later).contains(u) {
                assert(keep_members(narrow(base, init), later.last()).contains(u));
                assert(narrow(base, init).contains(u));
                assert forall|k: int| 0 <= k < later.len() implies carries_uid(#[trigger] later[k], u) by {
                    if k < init.len() {
                        assert(init[k] == later[k]);
                    } else {
                        assert(later[k] == later.last());
                    }
                }
            }
            if base.contains(u) && forall|k: int| 0 <= k < later.len() ==> carries_uid(#[trigger] later[k], u) {
                assert forall|k: int| 0 <= k < init.len() implies carries_uid(#[trigger] init[k], u) by {
                    assert(init[k] == later[k]);
                }
                assert(carries_uid(later[later.len() - 1], u));
            }
        }
    }
}

/// The intersection of source rows is ascending by uid, holds exactly the
/// uids present in every child's rows, and emits untyped ids.
pub proof fn lemma_intersection_ids(payloads: Seq<Seq<Seq<EntityId>>>)
    requires
        payloads.len() >= 1,
    ensures
        ascending_ids(intersection_ids(payloads)),
        forall|u: u64| carries_uid(intersection_ids(payloads), u) <==>
            (forall|k: int| 0 <= k < payloads.len() ==> carries_uid(#[trigger] payloads[k].flatten(), u)),
        forall|i: int| 0 <= i < intersection_ids(payloads).len() ==> intersection_ids(payloads)[i].entity_type is None,
{
    let first = payloads[0].flatten();
    lemma_union_ids(first);
    let base = uids_of(union_ids(first));
    let later = payloads.drop_first().map_values(|p: Seq<Seq<EntityId>>| p.flatten());
    assert forall|i: int, j: int| 0 <= i < j < base.len() implies base[i] < base[j] by {}
    lemma_narrow(base, later);
    let n = narrow(base, later);
    let out = intersection_ids(payloads);
    assert(out == n.map_values(|u: u64| untyped_id(u)));
    assert forall|u: u64| carries_uid(out, u) <==>
        (forall|k: int| 0 <= k < payloads.len() ==> carries_uid(#[trigger] payloads[k].flatten(), u)) by {
        lemma_uids_contains(union_ids(first), u);
        if carries_uid(out, u) {
            let i = choose|i: int| 0 <= i < out.len() && #[trigger] out[i].uid == u;
            assert(n[i] == u);
            assert(n.contains(u));
            assert forall|k: int| 0 <= k < payloads.len() implies carries_uid(#[trigger] payloads[k].flatten(), u) by {
                if k > 0 {
                    assert(later[k - 1] == payloads[k].flatten());
                }
            }
        }
        if forall|k: int| 0 <= k < payloads.len() ==> carries_uid(#[trigger] payloads[k].flatten(), u) {
            assert(carries_uid(payloads[0].flatten(), u));
            assert forall|k: int| 0 <= k < later.len() implies carries_uid(#[trigger] later[k], u) by {
                assert(later[k] == payloads[k + 1].flatten());
            }
            assert(n.contains(u));
            let i = choose|i: int| 0 <= i < n.len() && n[i] == u;
            assert(out[i].uid == u);
        }
    }
}

/// A sequence with `e` placed after every element whose uid is not above
/// its own: scanning from the end, `e` moves before each larger uid.
pub open spec fn insert_stable_by_uid(s: Seq<EntityId>, e: EntityId) -> Seq<EntityId>
    decreases s.len(),
{
    if s.len() == 0 || s.last().uid <= e.uid {
        s.push(e)
    } else {
        insert_stable_by_uid(s.drop_last(), e).push(s.last())
    }
}

/// `ids` stably sorted by uid.
pub open spec fn sorted_by_uid(ids: Seq<EntityId>) -> Seq<EntityId>
    decreases ids.len(),
{
    if ids.len() == 0 {
        Seq::empty()
    } else {
        insert_stable_by_uid(sorted_by_uid(ids.drop_last()), ids.last())
    }
}

/// `ids` stably sorted by uid (see [`sorted_by_uid`]).
pub fn sort_by_uid(ids: Vec<EntityId>) -> (r: Vec<EntityId>)
    ensures
        r@ == sorted_by_uid(ids@),
{
    let mut out: Vec<EntityId> = Vec::new();
    let mut i: usize = 0;
    while i < ids.len()
        invariant
            i <= ids@.len(),
            out@ == sorted_by_uid(ids@.take(i as int)),
        decreases ids@.len() - i,
    {
        let e = ids[i].duplicate();
        let ghost before = out@;
        let mut p: usize = out.len();
        proof {
            assert(before.take(p as int) =~= before);
            assert(before.skip(p as int) =~= Seq::<EntityId>::empty());
            assert(insert_stable_by_uid(before, e) =~= insert_stable_by_uid(before.take(p as int), e) + before.skip(p as int));
        }
        while p > 0 && out[p - 1].uid > e.uid
            invariant
                p <= before.len(),
                out@ == before,
                insert_stable_by_uid(before, e) == insert_stable_by_uid(before.take(p as int), e) + before.skip(p as int),
            decreases p,
        {
            proof {
                let t = before.take(p as int);
                assert(t.drop_last() =~= before.take(p - 1));
                assert(t.last() == before[p - 1]);
                assert(before.skip(p - 1) =~= seq![before[p - 1]] + before.skip(p as int));
                assert(insert_stable_by_uid(before.take(p - 1), e).push(before[p - 1]) + before.skip(p as int)
                    =~= insert_stable_by_uid(before.take(p - 1), e) + before.skip(p - 1));
            }
            p = p - 1;
        }
        proof {
            let t = before.take(p as int);
            if p > 0 {
                assert(t.last() == before[p - 1]);
            }
            assert(insert_stable_by_uid(t, e) == t.push(e));
            assert(t.push(e) + before.skip(p as int) =~= before.insert(p as int, e));
            assert(ids@.take(i as int + 1).drop_last() =~= ids@.take(i as int));
        }
        out.insert(p, e);
        i = i + 1;
    }
    proof {
        assert(ids@.take(ids@.len() as int) =~= ids@);
    }
    out
}

/// One batch of the given rows.
fn one_batch(rows: Vec<EntityId>) -> (out: Vec<RowBatch>)
    ensures
        batches_view(out@) == seq![rows@],
{
    let mut out = Vec::new();
    out.push(RowBatch(rows));
    proof {
        assert(batches_view(out@) =~= seq![rows@]);
    }
    out
}

/// Every entity of a type, in storage order.
pub struct FullTypeScan {
    pub type_label: String,
    pub cursor: Option<CursorValue>,
    pub limit: Option<usize>,
}

impl FullTypeScan {
    pub fn new(type_label: &str) -> (r: Self)
        ensures
            r.type_label@ == type_label@,
            r.cursor is None,
            r.limit is None,
    {
        FullTypeScan { type_label: String::from_str(type_label), cursor: None, limit: None }
    }

    pub fn kind(&self) -> (k: OperatorKind)
        ensures
            k == OperatorKind::Scan,
    {
        OperatorKind::Scan
    }

    /// The explain detail line.
    pub open spec fn describe(self) -> Seq<char> {
        "full_type_scan type="@ + self.type_label@
    }

    pub fn detail(&self) -> (s: String)
        ensures
            s@ == self.describe(),
    {
        let mut s = String::from_str("full_type_scan type=");
        s.append(self.type_label.as_str());
        s
    }

    pub fn execute<R: PlannerRuntime>(&self, ctx: &mut ExecContext<R>) -> (r: FlowResult<Vec<RowBatch>>)
        ensures
            flow_of(r) == Operator::FullScan(*self).spec_execute(old(ctx).spec_runtime(), old(ctx).spec_depth()),
            context_extends(*old(ctx), *final(ctx)),
    {
        let start = clock_now();
        match ctx.runtime().scan_type(self.type_label.as_str(), self.cursor.as_ref(), self.limit) {
            Ok(ids) => {
                let n = ids.len();
                ctx.record(make_stat("scan", self.detail(), 0, n, &start, Vec::new()));
                FlowResult::Rows(one_batch(ids))
            },
            Err(e) => FlowResult::Error(PlannerError::Storage(e)),
        }
    }
}

/// Unique-index equality lookup: at most one row, and a miss is
/// authoritative.
pub struct UniqueLookupSource {
    pub type_label: String,
    pub field: String,
    pub value: QueryValue,
}

impl UniqueLookupSource {
    pub fn kind(&self) -> (k: OperatorKind)
        ensures
            k == OperatorKind::Scan,
    {
        OperatorKind::Scan
    }

    /// The explain detail line.
    pub open spec fn describe(self) -> Seq<char> {
        "unique_lookup type="@ + self.type_label@ + " field="@ + self.field@ + " value="@ + value_debug(self.value@)
    }

    pub fn detail(&self) -> (s: String)
        ensures
            s@ == self.describe(),
    {
        let mut s = String::from_str("unique_lookup type=");
        s.append(self.type_label.as_str());
        s.append(" field=");
        s.append(self.field.as_str());
        s.append(" value=");
        append_value_debug(&mut s, &self.value);
        s
    }

    pub fn execute<R: PlannerRuntime>(&self, ctx: &mut ExecContext<R>) -> (r: FlowResult<Vec<RowBatch>>)
        ensures
            flow_of(r) == Operator::UniqueLookup(*self).spec_execute(old(ctx).spec_runtime(), old(ctx).spec_depth()),
            context_extends(*old(ctx), *final(ctx)),
    {
        let start = clock_now();
        match ctx.runtime().lookup_unique(self.type_label.as_str(), self.field.as_str(), &self.value) {
            Ok(found) => {
                let mut rows: Vec<EntityId> = Vec::new();
                if let Some(id) = found {
                    rows.push(id);
                }
                proof {
                    assert(rows@ =~= match found { Some(id) => seq![id], None => Seq::<EntityId>::empty() });
                }
                let n = rows.len();
                ctx.record(make_stat("scan", self.detail(), 0, n, &start, Vec::new()));
                FlowResult::Rows(one_batch(rows))
            },
            Err(e) => FlowResult::Error(PlannerError::Storage(e)),
        }
    }
}

/// The variant name of a filter operator.
pub open spec fn op_variant(op: FilterOp) -> Seq<char> {
    match op {
        FilterOp::Eq => "Eq"@,
        FilterOp::Ne => "Ne"@,
        FilterOp::Gt => "Gt"@,
        FilterOp::Ge => "Ge"@,
        FilterOp::Lt => "Lt"@,
        FilterOp::Le => "Le"@,
        FilterOp::In => "In"@,
        FilterOp::Contains => "Contains"@,
        FilterOp::AllOfTerms => "AllOfTerms"@,
        FilterOp::AnyOfTerms => "AnyOfTerms"@,
        FilterOp::AllOfText => "AllOfText"@,
        FilterOp::AnyOfText => "AnyOfText"@,
        FilterOp::NearVector => "NearVector"@,
        FilterOp::Within => "Within"@,
        FilterOp::Intersects => "Intersects"@,
    }
}

fn op_variant_str(op: FilterOp) -> (s: &'static str)
    ensures
        s@ == op_variant(op),
{
    match op {
        FilterOp::Eq => "Eq",
        FilterOp::Ne => "Ne",
        FilterOp::Gt => "Gt",
        FilterOp::Ge => "Ge",
        FilterOp::Lt => "Lt",
        FilterOp::Le => "Le",
        FilterOp::In => "In",
        FilterOp::Contains => "Contains",
        FilterOp::AllOfTerms => "AllOfTerms",
        FilterOp::AnyOfTerms => "AnyOfTerms",
        FilterOp::AllOfText => "AllOfText",
        FilterOp::AnyOfText => "AnyOfText",
        FilterOp::NearVector => "NearVector",
        FilterOp::Within => "Within",
        FilterOp::Intersects => "Intersects",
    }
}

/// Predicate evaluated by storage. Its rows come out in ascending uid
/// order; a predicate storage cannot evaluate fails as unsupported, so
/// builders can fall back to a full scan and a residual filter.
pub struct PredicatePushdownSource {
    pub type_label: String,
    pub predicate: FilterPredicate,
}

/// The message of a predicate storage cannot evaluate.
pub open spec fn unpushable_message(p: FilterPredicate) -> Seq<char> {
    "predicate not pushable: "@ + path_text(p.path.segments@) + " "@ + op_variant(p.op)
}

impl PredicatePushdownSource {
    pub fn kind(&self) -> (k: OperatorKind)
        ensures
            k == OperatorKind::Scan,
    {
        OperatorKind::Scan
    }

    /// The explain detail line.
    pub open spec fn describe(self) -> Seq<char> {
        "predicate_pushdown type="@ + self.type_label@ + " "@ + path_text(self.predicate.path.segments@) + " "@
            + self.predicate.op.name() + " "@ + value_debug(self.predicate.value@)
    }

    pub fn detail(&self) -> (s: String)
        ensures
            s@ == self.describe(),
    {
        let mut s = String::from_str("predicate_pushdown type=");
        s.append(self.type_label.as_str());
        s.append(" ");
        let path = self.predicate.path.to_string();
        s.append(path.as_str());
        s.append(" ");
        s.append(self.predicate.op.as_str());
        s.append(" ");
        append_value_debug(&mut s, &self.predicate.value);
        s
    }

    pub fn execute<R: PlannerRuntime>(&self, ctx: &mut ExecContext<R>) -> (r: FlowResult<Vec<RowBatch>>)
        ensures
            flow_of(r) == Operator::Pushdown(*self).spec_execute(old(ctx).spec_runtime(), old(ctx).spec_depth()),
            context_extends(*old(ctx), *final(ctx)),
    {
        let start = clock_now();
        match ctx.runtime().candidate_ids(self.type_label.as_str(), &self.predicate) {
            Ok(Some(ids)) => {
                let rows = sort_by_uid(ids);
                let n = rows.len();
                ctx.record(make_stat("scan", self.detail(), 0, n, &start, Vec::new()));
                FlowResult::Rows(one_batch(rows))
            },
            Ok(None) => {
                let mut d = self.detail();
                d.append(" [unsupported]");
                ctx.record(make_stat("scan", d, 0, 0, &start, Vec::new()));
                let mut m = String::from_str("predicate not pushable: ");
                let path = self.predicate.path.to_string();
                m.append(path.as_str());
                m.append(" ");
                m.append(op_variant_str(self.predicate.op));
                FlowResult::Error(PlannerError::Unsupported(m))
            },
            Err(e) => FlowResult::Error(PlannerError::Storage(e)),
        }
    }
}

/// Scan of a type in the order of one field's index. It declares that
/// ordering so downstream sorts on the same key are eliminated; a missing
/// index fails as unsupported.
pub struct OrderedIndexScan {
    pub type_label: String,
    pub field: String,
    pub direction: SortDirection,
    pub cursor: Option<CursorValue>,
    pub limit: Option<usize>,
}

/// The message of a missing order index.
pub open spec fn no_index_message(type_label: Seq<char>, field: Seq<char>) -> Seq<char> {
    "order index missing for "@ + type_label + "."@ + field
}

impl OrderedIndexScan {
    pub fn kind(&self) -> (k: OperatorKind)
        ensures
            k == OperatorKind::Scan,
    {
        OperatorKind::Scan
    }

    /// The explain detail line.
    pub open spec fn describe(self) -> Seq<char> {
        "ordered_index_scan type="@ + self.type_label@ + " field="@ + self.field@ + " dir="@
            + match self.direction {
                SortDirection::Asc => "asc"@,
                SortDirection::Desc => "desc"@,
            }
    }

    pub fn detail(&self) -> (s: String)
        ensures
            s@ == self.describe(),
    {
        let mut s = String::from_str("ordered_index_scan type=");
        s.append(self.type_label.as_str());
        s.append(" field=");
        s.append(self.field.as_str());
        s.append(" dir=");
        match self.direction {
            SortDirection::Asc => s.append("asc"),
            SortDirection::Desc => s.append("desc"),
        }
        s
    }

    pub fn output_ordering(&self) -> (o: OutputOrdering)
        ensures
            o == (OutputOrdering::Sorted { field: self.field, direction: self.direction }),
    {
        OutputOrdering::Sorted { field: self.field.clone(), direction: self.direction }
    }

    pub fn execute<R: PlannerRuntime>(&self, ctx: &mut ExecContext<R>) -> (r: FlowResult<Vec<RowBatch>>)
        ensures
            flow_of(r) == Operator::OrderedScan(*self).spec_execute(old(ctx).spec_runtime(), old(ctx).spec_depth()),
            context_extends(*old(ctx), *final(ctx)),
    {
        let start = clock_now();
        match ctx.runtime().ordered_scan_with_fallback(
            self.type_label.as_str(),
            self.field.as_str(),
            self.direction,
            self.cursor.as_ref(),
            self.limit,
        ) {
            Ok(Some(ids)) => {
                let n = ids.len();
                ctx.record(make_stat("scan", self.detail(), 0, n, &start, Vec::new()));
                FlowResult::Rows(one_batch(ids))
            },
            Ok(None) => {
                let mut d = self.detail();
                d.append(" [no_index]");
                ctx.record(make_stat("scan", d, 0, 0, &start, Vec::new()));
                let mut m = String::from_str("order index missing for ");
                m.append(self.type_label.as_str());
                m.append(".");
                m.append(self.field.as_str());
                FlowResult::Error(PlannerError::Unsupported(m))
            },
            Err(e) => FlowResult::Error(PlannerError::Storage(e)),
        }
    }
}

/// `op` is the operator tree a candidate source builds for `type_label`:
/// one storage source per access path; a relation expansion over the child
/// plan's tree (under the child's lowered filter unless that is empty);
/// intersections and unions over their children's trees.
pub open spec fn tree_of(op: Operator, type_label: Seq<char>, src: SourceView) -> bool
    decreases src, 1int,
{
    match src {
        SourceView::FullTypeScan => op matches Operator::FullScan(f)
            && f.type_label@ == type_label && f.cursor is None && f.limit is None,
        SourceView::UniqueLookup { field, value } => op matches Operator::UniqueLookup(u)
            && u.type_label@ == type_label && u.field@ == field && u.value@ == value,
        SourceView::OrderedIndexScan { field, direction } => op matches Operator::OrderedScan(o)
            && o.type_label@ == type_label && o.field@ == field && o.direction == direction
            && o.cursor is None && o.limit is None,
        SourceView::PredicatePushdown(p) => op matches Operator::Pushdown(x)
            && x.type_label@ == type_label && predicate_view(x.predicate) == p,
        SourceView::TextIndex { field, op: text_op, query } => op matches Operator::TextSearch(t)
            && t.type_label@ == type_label && t.field@ == field && t.op == text_op && t.query@ == query
            && t.limit is None,
        SourceView::RelationExpansion { field, target_type, child_plan, inverse_field, child_raw_filter, child_uniques } =>
            op matches Operator::RelationExpand(x)
            && x.target_type@ == target_type && x.inverse_field@ == inverse_field
            && match child_raw_filter {
                Some(raw) => if !is_empty_and(lower_map(raw)) {
                    *x.input matches Operator::Filter(f) && f.filter@ == lower_map(raw)
                        && tree_of(*f.input, child_plan.type_label, child_plan.source)
                } else {
                    tree_of(*x.input, child_plan.type_label, child_plan.source)
                },
                None => tree_of(*x.input, child_plan.type_label, child_plan.source),
            },
        SourceView::Intersection(children) => op matches Operator::Intersection(i) && trees_of(i.sources@, children),
        SourceView::Union(children) => op matches Operator::Union(u) && trees_of(u.sources@, children),
    }
}

/// Each operator is the tree of the plan at its position.
pub open spec fn trees_of(ops: Seq<Box<Operator>>, plans: Seq<PlanView>) -> bool
    decreases plans, 0int,
{
    ops.len() == plans.len() && (plans.len() == 0 || (trees_of(ops.drop_last(), plans.drop_last())
        && tree_of(*ops.last(), plans.last().type_label, plans.last().source)))
}

/// The trees of the children plans, in order.
fn build_children(children: &Vec<CandidatePlan>) -> (r: Result<Vec<Box<Operator>>, PlannerError>)
    ensures
        r matches Ok(ops) && trees_of(ops@, plans_view(children@)),
    decreases children, 0int,
{
    proof {
        lemma_plans_view(children@);
    }
    let ghost pv = plans_view(children@);
    let mut ops: Vec<Box<Operator>> = Vec::new();
    let mut i: usize = 0;
    while i < children.len()
        invariant
            i <= children@.len(),
            pv == plans_view(children@),
            pv.len() == children@.len(),
            forall|j: int| 0 <= j < children@.len() ==> #[trigger] pv[j] == children@[j]@,
            trees_of(ops@, pv.take(i as int)),
        decreases children@.len() - i,
    {
        proof {
            assert(decreases_to!(*children => children@));
            assert(decreases_to!(children@ => children@[i as int]));
            assert(decreases_to!(children@[i as int] => children@[i as int].source));
        }
        let t = match build_source_tree(children[i].type_label.as_str(), &children[i].source) {
            Ok(t) => t,
            Err(e) => return Err(e),
        };
        let ghost before = ops@;
        ops.push(t);
        proof {
            let p = pv.take(i as int + 1);
            assert(p.drop_last() =~= pv.take(i as int));
            assert(ops@.drop_last() =~= before);
            assert(p.last() == children@[i as int]@);
        }
        i = i + 1;
    }
    proof {
        assert(pv.take(children@.len() as int) =~= pv);
    }
    Ok(ops)
}

/// The operator tree a candidate source reads through (see [`tree_of`]);
/// building always succeeds.
pub fn build_source_tree(type_label: &str, source: &CandidateSource) -> (r: Result<Box<Operator>, PlannerError>)
    ensures
        r matches Ok(t) && tree_of(*t, type_label@, source_view(*source)),
    decreases source, 1int,
{
    match source {
        CandidateSource::FullTypeScan => Ok(Box::new(Operator::FullScan(FullTypeScan::new(type_label)))),
        CandidateSource::UniqueLookup { field, value } => Ok(Box::new(Operator::UniqueLookup(UniqueLookupSource {
            type_label: String::from_str(type_label),
            field: field.clone(),
            value: crate::query_planner::physical_expr::copy_value(value),
        }))),
        CandidateSource::OrderedIndexScan { field, direction } => Ok(Box::new(Operator::OrderedScan(OrderedIndexScan {
            type_label: String::from_str(type_label),
            field: field.clone(),
            direction: *direction,
            cursor: None,
            limit: None,
        }))),
        CandidateSource::PredicatePushdown(pred) => Ok(Box::new(Operator::Pushdown(PredicatePushdownSource {
            type_label: String::from_str(type_label),
            predicate: copy_predicate(pred),
        }))),
        CandidateSource::TextIndex { field, op, query } => Ok(Box::new(Operator::TextSearch(TextBM25Scan {
            type_label: String::from_str(type_label),
            field: field.clone(),
            op: *op,
            query: query.clone(),
            limit: None,
        }))),
        CandidateSource::RelationExpansion { target_type, child_plan, inverse_field, child_raw_filter, .. } => {
            proof {
                assert(decreases_to!(*source => (*source)->child_plan));
            }
            let child_tree = match build_source_tree(child_plan.type_label.as_str(), &child_plan.source) {
                Ok(t) => t,
                Err(e) => return Err(e),
            };
            let node = match child_raw_filter {
                Some(raw) => {
                    let f = lower_filter_map(raw);
                    if !f.is_empty_conjunction() {
                        FilterOperator::boxed(child_tree, f)
                    } else {
                        child_tree
                    }
                },
                None => child_tree,
            };
            Ok(Box::new(Operator::RelationExpand(RelationExpandSource {
                input: node,
                target_type: target_type.clone(),
                inverse_field: inverse_field.clone(),
            })))
        },
        CandidateSource::Intersection(children) => {
            proof {
                assert(decreases_to!(*source => (*source)->Intersection_0));
            }
            match build_children(children) {
                Ok(sources) => Ok(Box::new(Operator::Intersection(IntersectionSources { sources }))),
                Err(e) => Err(e),
            }
        },
        CandidateSource::Union(children) => {
            proof {
                assert(decreases_to!(*source => (*source)->Union_0));
            }
            match build_children(children) {
                Ok(sources) => Ok(Box::new(Operator::Union(UnionSources { sources }))),
                Err(e) => Err(e),
            }
        },
    }
}

/// A predicate with the same content.
fn copy_predicate(p: &FilterPredicate) -> (r: FilterPredicate)
    ensures
        predicate_view(r) == predicate_view(*p),
{
    let mut segments: Vec<crate::query_planner::ir::FieldSegment> = Vec::new();
    let mut i: usize = 0;
    while i < p.path.segments.len()
        invariant
            i <= p.path.segments@.len(),
            segments@ == p.path.segments@.take(i as int),
        decreases p.path.segments@.len() - i,
    {
        let seg = match &p.path.segments[i] {
            crate::query_planner::ir::FieldSegment::Field(name) => crate::query_planner::ir::FieldSegment::Field(name.clone()),
            crate::query_planner::ir::FieldSegment::Index(k) => crate::query_planner::ir::FieldSegment::Index(*k),
        };
        segments.push(seg);
        proof {
            assert(segments@ =~= p.path.segments@.take(i as int + 1));
        }
        i = i + 1;
    }
    proof {
        assert(p.path.segments@.take(p.path.segments@.len() as int) =~= p.path.segments@);
    }
    let r = FilterPredicate {
        path: crate::query_planner::ir::FieldPath { segments },
        op: p.op,
        value: crate::query_planner::physical_expr::copy_value(&p.value),
    };
    proof {
        assert(crate::query_planner::ir::path_view(r.path) =~= crate::query_planner::ir::path_view(p.path));
    }
    r
}

} // verus!
