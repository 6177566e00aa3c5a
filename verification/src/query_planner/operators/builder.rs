//! Pipeline assembly: turns read arguments into an executable operator
//! tree. Every pipeline ends in the same chain: residual filter, sort,
//! positional cursor, offset, limit.
use vstd::prelude::*;
use crate::query_planner::ir::{
    fields_view, path_view, untyped_id, FilterOp, FilterView, LogicalFilter, OrderKey, QueryValue,
    SegmentView, ValueView,
};
use crate::query_planner::context::QueryTypeMetadata;
use crate::query_planner::ir::{opt_cursor_view, segment_view, CursorView, EntityId, FieldSegment, SortDirection};
use crate::query_planner::lowering::{canonical_fields, direction_of, lower_filter_map, lower_map, lower_sort_map};
use crate::query_planner::plan::{residual_view, source_kind, texts_view, uids_exec, CandidatePlan, PlanView};
use crate::query_planner::planner::{plan_candidates, plan_of};
use crate::query_planner::traits::{uids_of, PlannerRuntime};
use crate::render::same_text;
use super::filter::{copy_filter, parse_u64, parsed_u64, FilterOperator};
use super::pagination::{CursorMode, CursorSkipOperator, LimitOperator, OffsetOperator};
use super::relation::RelatedIdsSource;
use super::sort::{key_field, key_field_exec, SortOperator};
use super::source::{build_source_tree, tree_of, OrderedIndexScan, TextBM25Scan, VecSource};
use super::{batches_view, context_extends, flatten_batches, ExecContext, FlowResult, Operator, OutputOrdering};

verus! {

/// An assembled pipeline and how it reads its rows.
pub struct BuiltPipeline {
    pub root: Box<Operator>,
    /// Access-shape tag naming the base source.
    pub shape: String,
    /// Whether a planner narrowed the candidates.
    pub used_candidates: bool,
    /// The candidate plan, when planner-based access was chosen.
    pub plan: Option<CandidatePlan>,
}

/// The text-search operator a strategy and match mode select.
pub open spec fn text_op(strategy: Seq<char>, require_all: bool) -> FilterOp {
    if strategy == "term"@ {
        if require_all { FilterOp::AllOfTerms } else { FilterOp::AnyOfTerms }
    } else if strategy == "fulltext"@ && require_all {
        FilterOp::AllOfText
    } else {
        FilterOp::AnyOfText
    }
}

/// A text scan over `field` keeping the best `k` matches, with the operator
/// `strategy` (`"term"` or `"fulltext"`) and `require_all` select.
pub fn text_search_op(type_label: &str, field: &str, strategy: &str, query: &str, require_all: bool, k: usize) -> (r: TextBM25Scan)
    ensures
        r.type_label@ == type_label@,
        r.field@ == field@,
        r.op == text_op(strategy@, require_all),
        r.query@ == query@,
        r.limit == Some(k),
{
    let op = if same_text(strategy, "term") {
        if require_all { FilterOp::AllOfTerms } else { FilterOp::AnyOfTerms }
    } else if same_text(strategy, "fulltext") && require_all {
        FilterOp::AllOfText
    } else {
        FilterOp::AnyOfText
    };
    proof {
        reveal_strlit("term");
        reveal_strlit("fulltext");
    }
    let mut scan = TextBM25Scan::new(type_label, field, op, query);
    scan.limit = Some(k);
    scan
}

/// The uid a cursor string names, if it is one.
pub open spec fn cursor_uid(after: Option<&str>) -> Option<u64> {
    match after {
        Some(s) => parsed_u64(s@),
        None => None,
    }
}

/// `source` under the residual filter, unless that is absent or the empty
/// conjunction.
pub open spec fn residual_over(source: Operator, residual: Option<LogicalFilter>) -> Operator {
    match residual {
        Some(f) => if f@ matches FilterView::And(parts) && parts.len() == 0 {
            source
        } else {
            Operator::Filter(FilterOperator { input: Box::new(source), filter: f })
        },
        None => source,
    }
}

/// The chain over `source`: the residual filter (unless absent or the empty
/// conjunction), a sort when there are keys, the positional cursor (an
/// absent cursor keeps nothing when `seek`), then offset and limit when
/// given.
pub open spec fn chain(
    source: Operator,
    residual: Option<LogicalFilter>,
    keys: Vec<OrderKey>,
    after: Option<u64>,
    offset: Option<usize>,
    first: Option<usize>,
    seek: bool,
) -> Operator {
    let filtered = residual_over(source, residual);
    let sorted = if keys@.len() > 0 { Operator::Sort(SortOperator { input: Box::new(filtered), keys }) } else { filtered };
    let mode = if seek { CursorMode::EmptyIfAbsent } else { CursorMode::KeepAllIfAbsent };
    let cursored = Operator::CursorSkip(CursorSkipOperator { input: Box::new(sorted), after, mode });
    let skipped = match offset {
        Some(n) => Operator::Offset(OffsetOperator { input: Box::new(cursored), offset: n }),
        None => cursored,
    };
    match first {
        Some(n) => Operator::Limit(LimitOperator { input: Box::new(skipped), limit: n }),
        None => skipped,
    }
}

/// Builds the common tail of a pipeline over `source` (see [`chain`]).
pub fn finish_chain(
    source: Box<Operator>,
    residual: Option<LogicalFilter>,
    keys: Vec<OrderKey>,
    after: Option<&str>,
    offset: Option<usize>,
    first: Option<usize>,
    seek_cursor: bool,
) -> (r: Box<Operator>)
    ensures
        *r == chain(*source, residual, keys, cursor_uid(after), offset, first, seek_cursor),
{
    let mut node = source;
    if let Some(f) = residual {
        if !f.is_empty_conjunction() {
            node = FilterOperator::boxed(node, f);
        }
    }
    if keys.len() > 0 {
        node = SortOperator::boxed(node, keys);
    }
    let after_uid = match after {
        Some(s) => parse_u64(s),
        None => None,
    };
    node = if seek_cursor {
        CursorSkipOperator::seek_boxed(node, after_uid)
    } else {
        CursorSkipOperator::boxed(node, after_uid)
    };
    if let Some(skip) = offset {
        node = OffsetOperator::boxed(node, skip);
    }
    if let Some(limit) = first {
        node = LimitOperator::boxed(node, limit);
    }
    node
}

/// `keys` are the keys a sort argument lowers to: one per entry, on the
/// entry's field, in the direction its value names.
pub open spec fn lowered_keys(keys: Seq<OrderKey>, sort: Seq<(Seq<char>, ValueView)>) -> bool {
    &&& keys.len() == sort.len()
    &&& forall|i: int| 0 <= i < sort.len() ==> {
        &&& path_view((#[trigger] keys[i]).path) == seq![SegmentView::Field(sort[i].0)]
        &&& keys[i].direction == direction_of(sort[i].1)
    }
}

/// `residual` is what a filter argument lowers to: none for an empty
/// argument, otherwise its lowered conjunction.
pub open spec fn lowered_residual(residual: Option<LogicalFilter>, filter: Seq<(Seq<char>, ValueView)>) -> bool {
    if filter.len() == 0 {
        residual is None
    } else {
        residual matches Some(f) && f@ == lower_map(filter)
    }
}

/// Relation list pipeline: the ids related to `parent_uid` through
/// `field_name`, then the common chain with the lowered filter and sort; an
/// absent cursor keeps every row.
pub fn build_relation_pipeline(
    parent_uid: u64,
    field_name: &str,
    filter: &Vec<(String, QueryValue)>,
    sort: &Vec<(String, QueryValue)>,
    first: Option<usize>,
    after: Option<&str>,
    offset: Option<usize>,
) -> (p: BuiltPipeline)
    ensures
        p.shape@ == "related_ids"@,
        !p.used_candidates,
        p.plan is None,
        exists|src: RelatedIdsSource, keys: Vec<OrderKey>, residual: Option<LogicalFilter>|
            #![trigger lowered_keys(keys@, fields_view(sort@)), lowered_residual(residual, fields_view(filter@)), src.parent]
            src.parent == untyped_id(parent_uid)
            && src.field@ == field_name@
            && lowered_keys(keys@, fields_view(sort@))
            && lowered_residual(residual, fields_view(filter@))
            && *p.root == chain(Operator::RelatedIds(src), residual, keys, cursor_uid(after), offset, first, false),
{
    let src = RelatedIdsSource::new(parent_uid, field_name);
    let ghost src_copy = src;
    let source = Box::new(Operator::RelatedIds(src));
    let keys = lower_sort_map(sort);
    let ghost keys_copy = keys;
    let residual = if filter.len() == 0 {
        None
    } else {
        Some(lower_filter_map(filter))
    };
    let ghost residual_copy = residual;
    proof {
        crate::query_planner::ir::lemma_fields_view(sort@);
        crate::query_planner::ir::lemma_fields_view(filter@);
        assert(lowered_keys(keys_copy@, fields_view(sort@)));
        assert(lowered_residual(residual_copy, fields_view(filter@)));
        assert(src_copy.parent == untyped_id(parent_uid));
    }
    let root = finish_chain(source, residual, keys, after, offset, first, false);
    BuiltPipeline { root, shape: String::from_str("related_ids"), used_candidates: false, plan: None }
}

/// Where a scan pipeline reads its rows: a ranked search operator with its
/// shape tag, or a candidate plan.
pub enum BaseSource {
    Search(Box<Operator>, &'static str),
    Planned(CandidatePlan),
}

/// The candidate plan a filter gets on `type_label` (see [`plan_of`]).
pub open spec fn planned(
    metadata: Seq<(String, QueryTypeMetadata)>,
    type_label: Seq<char>,
    uniques: Seq<String>,
    filter: Seq<(String, QueryValue)>,
) -> PlanView {
    plan_of(metadata, type_label, texts_view(uniques), canonical_fields(fields_view(filter)))
}

/// `op` is the text scan a text-search argument `(field, strategy, query,
/// require_all)` asks for on `type_label`, keeping `k` matches.
pub open spec fn is_text_search(op: Operator, type_label: Seq<char>, t: (String, String, String, bool), k: usize) -> bool {
    op matches Operator::TextSearch(scan)
        && scan.type_label@ == type_label
        && scan.field@ == t.0@
        && scan.op == text_op(t.1@, t.3)
        && scan.query@ == t.2@
        && scan.limit == Some(k)
}

/// The base source: a text scan of the best `k` matches under the tag
/// `text_bm25` when a text search is given, else the filter's candidate plan.
pub fn build_base_source(
    db_name: &str,
    type_label: &str,
    filter: &Vec<(String, QueryValue)>,
    uniques: &[String],
    metadata: &Vec<(String, QueryTypeMetadata)>,
    text_search: Option<&(String, String, String, bool)>,
    k: usize,
) -> (r: BaseSource)
    ensures
        match text_search {
            Some(t) => r matches BaseSource::Search(op, s) && s@ == "text_bm25"@ && is_text_search(*op, type_label@, *t, k),
            None => r matches BaseSource::Planned(p) && p@ == planned(metadata@, type_label@, uniques@, filter@),
        },
{
    match text_search {
        Some(t) => {
            let scan = text_search_op(type_label, t.0.as_str(), t.1.as_str(), t.2.as_str(), t.3, k);
            proof {
                reveal_strlit("text_bm25");
            }
            BaseSource::Search(Box::new(Operator::TextSearch(scan)), "text_bm25")
        },
        None => BaseSource::Planned(plan_candidates(db_name, type_label, filter, uniques, metadata)),
    }
}

/// Whether every segment of a sort key's path names a field.
fn fields_only(key: &OrderKey) -> (r: bool)
    ensures
        r == forall|i: int| 0 <= i < key.path.segments@.len() ==> #[trigger] key.path.segments@[i] is Field,
{
    let mut i: usize = 0;
    while i < key.path.segments.len()
        invariant
            i <= key.path.segments@.len(),
            forall|j: int| 0 <= j < i ==> #[trigger] key.path.segments@[j] is Field,
        decreases key.path.segments@.len() - i,
    {
        match &key.path.segments[i] {
            FieldSegment::Field(_) => {},
            FieldSegment::Index(_) => return false,
        }
        i = i + 1;
    }
    true
}

/// How many ranked matches a search base keeps for a page of `first` rows
/// (fifty when no page size is given), four times over.
pub open spec fn search_width(first: Option<usize>) -> int {
    match first {
        Some(n) => n * 4,
        None => 200,
    }
}

/// The rows the order index of the first sort key yields for `type_label`;
/// `None` without a sort key, when the index is missing, or when the read
/// fails.
pub open spec fn probe_rows<R: PlannerRuntime>(rt: &R, type_label: Seq<char>, sort: Seq<(Seq<char>, ValueView)>) -> Option<Seq<EntityId>> {
    if sort.len() == 0 {
        None
    } else {
        match rt.spec_ordered_scan_with_fallback(type_label, sort[0].0, direction_of(sort[0].1), None, None) {
            Ok(Some(ids)) => Some(ids),
            _ => None,
        }
    }
}

/// The label of the source an order-index probe materializes.
pub open spec fn probe_label(type_label: Seq<char>, field: Seq<char>) -> Seq<char> {
    "ordered_index_probe "@ + type_label + "."@ + field
}

/// `op` materializes the probed rows (by uid) and declares their order.
pub open spec fn is_probe_source(op: Operator, type_label: Seq<char>, field: Seq<char>, direction: SortDirection, ids: Seq<EntityId>) -> bool {
    op matches Operator::Values(v)
        && v.label@ == probe_label(type_label, field)
        && v.ids@ == ids.map_values(|e: EntityId| untyped_id(e.uid))
        && (v.ordering matches OutputOrdering::Sorted { field: f, direction: d } && f@ == field && d == direction)
}

/// Whether a plan's chain seeks its cursor: an unsorted full type scan
/// streams the whole type, where an absent cursor keeps nothing.
pub open spec fn streams_whole_type(plan: PlanView, sort_keys: nat) -> bool {
    source_kind(plan.source) == "full_type_scan"@ && sort_keys == 0
}

/// Scan pipeline for `type_label`. When a sort is given, the order index of
/// its first key is probed first: rows it yields (even none) are
/// authoritative and feed the chain under the whole lowered filter, with an
/// absent cursor keeping nothing. Otherwise the base source feeds the
/// chain: a text search under the lowered filter, or the candidate plan's
/// source tree under the plan's residual, where an absent cursor keeps
/// nothing only for an unsorted full type scan.
pub fn build_scan_pipeline<R: PlannerRuntime>(
    db_name: &str,
    type_label: &str,
    filter: &Vec<(String, QueryValue)>,
    sort: &Vec<(String, QueryValue)>,
    first: Option<usize>,
    after: Option<&str>,
    offset: Option<usize>,
    text_search: Option<&(String, String, String, bool)>,
    uniques: &[String],
    metadata: &Vec<(String, QueryTypeMetadata)>,
    ctx: &mut ExecContext<R>,
) -> (p: BuiltPipeline)
    requires
        search_width(first) <= usize::MAX,
    ensures
        context_extends(*old(ctx), *final(ctx)),
        probe_rows(old(ctx).spec_runtime(), type_label@, fields_view(sort@)) matches Some(ids) ==> {
            &&& p.shape@ == "ordered_index_scan"@
            &&& p.used_candidates
            &&& exists|src: Operator, keys: Vec<OrderKey>, residual: Option<LogicalFilter>|
                #![trigger chain(src, residual, keys, cursor_uid(after), offset, first, true)]
                is_probe_source(src, type_label@, fields_view(sort@)[0].0, direction_of(fields_view(sort@)[0].1), ids)
                && lowered_keys(keys@, fields_view(sort@))
                && (residual matches Some(f) && f@ == lower_map(fields_view(filter@)))
                && *p.root == chain(src, residual, keys, cursor_uid(after), offset, first, true)
        },
        probe_rows(old(ctx).spec_runtime(), type_label@, fields_view(sort@)) is None ==> match text_search {
            Some(t) => {
                &&& p.shape@ == "text_bm25"@
                &&& !p.used_candidates
                &&& exists|src: Operator, keys: Vec<OrderKey>, residual: Option<LogicalFilter>|
                    #![trigger chain(src, residual, keys, cursor_uid(after), offset, first, false)]
                    is_text_search(src, type_label@, *t, search_width(first) as usize)
                    && lowered_keys(keys@, fields_view(sort@))
                    && lowered_residual(residual, fields_view(filter@))
                    && *p.root == chain(src, residual, keys, cursor_uid(after), offset, first, false)
            },
            None => {
                let plan = planned(metadata@, type_label@, uniques@, filter@);
                let narrowed = source_kind(plan.source) != "full_type_scan"@;
                &&& p.used_candidates == narrowed
                &&& p.shape@ == (if narrowed { source_kind(plan.source) } else { "full_type_scan_streaming"@ })
                &&& exists|src: Operator, keys: Vec<OrderKey>, residual: Option<LogicalFilter>|
                    #![trigger chain(src, residual, keys, cursor_uid(after), offset, first, streams_whole_type(plan, sort@.len()))]
                    tree_of(src, type_label@, plan.source)
                    && lowered_keys(keys@, fields_view(sort@))
                    && residual_view(residual) == plan.residual
                    && *p.root == chain(src, residual, keys, cursor_uid(after), offset, first, streams_whole_type(plan, sort@.len()))
            },
        },
        match text_search {
            Some(_) => p.plan is None,
            None => p.plan matches Some(q) && q@ == planned(metadata@, type_label@, uniques@, filter@),
        },
{
    proof {
        crate::query_planner::ir::lemma_fields_view(sort@);
        crate::query_planner::ir::lemma_fields_view(filter@);
    }
    let keys = lower_sort_map(sort);
    let width: usize = match first {
        Some(n) => n * 4,
        None => 200,
    };
    let base = build_base_source(db_name, type_label, filter, uniques, metadata, text_search, width);
    let residual: Option<LogicalFilter> = match &base {
        BaseSource::Search(..) => if filter.len() == 0 {
            None
        } else {
            Some(lower_filter_map(filter))
        },
        BaseSource::Planned(plan) => match &plan.residual {
            Some(f) => Some(copy_filter(f)),
            None => None,
        },
    };
    let mut kept_plan: Option<CandidatePlan> = None;
    let (source, shape, used_candidates, planned_full_scan) = match base {
        BaseSource::Search(op, s) => (op, String::from_str(s), false, false),
        BaseSource::Planned(plan) => {
            let kind = plan.source.kind();
            let narrowed = !same_text(kind, "full_type_scan");
            let shape = if narrowed {
                String::from_str(kind)
            } else {
                String::from_str("full_type_scan_streaming")
            };
            let tree = match build_source_tree(type_label, &plan.source) {
                Ok(op) => op,
                Err(_) => {
                    let uids = match plan.execute_uids(ctx.runtime()) {
                        Some(u) => u,
                        None => Vec::new(),
                    };
                    Box::new(Operator::Values(VecSource::new("relation_bridge", uids)))
                },
            };
            kept_plan = Some(plan);
            (tree, shape, narrowed, !narrowed)
        },
    };
    let ghost rt = ctx.spec_runtime();
    let ghost fv = fields_view(sort@);
    proof {
        if keys@.len() > 0 {
            assert(path_view(keys@[0].path)[0] == SegmentView::Field(fv[0].0));
            assert(path_view(keys@[0].path).len() == 1);
            assert(keys@[0].path.segments@.len() == 1);
            assert(segment_view(keys@[0].path.segments@[0]) == SegmentView::Field(fv[0].0));
            assert(keys@[0].path.segments@[0] is Field);
            assert(key_field(keys@[0]) == Some(fv[0].0));
        }
    }
    if keys.len() > 0 && fields_only(&keys[0]) {
        if let Some(name) = key_field_exec(&keys[0]) {
            let field = String::from_str(name);
            let direction = keys[0].direction;
            let probe = OrderedIndexScan {
                type_label: String::from_str(type_label),
                field: String::from_str(name),
                direction,
                cursor: None,
                limit: None,
            };
            proof {
                assert(path_view(keys@[0].path) == seq![SegmentView::Field(fv[0].0)]);
                assert(path_view(keys@[0].path)[0] == SegmentView::Field(fv[0].0));
                assert(field@ == fv[0].0);
            }
            let outcome = probe.execute(ctx);
            if let FlowResult::Rows(batches) = outcome {
                let ghost found = rt.spec_ordered_scan_with_fallback(type_label@, fv[0].0, direction, None, None);
                proof {
                    assert(opt_cursor_view(probe.cursor) == None::<CursorView>);
                    assert(found matches Ok(Some(_)));
                }
                let ghost ids = found->Ok_0->Some_0;
                let rows = flatten_batches(batches);
                proof {
                    assert(batches_view(batches@) == seq![ids]);
                    seq![ids].lemma_flatten_one_element();
                    assert(rows@ == ids);
                    assert(probe_rows(rt, type_label@, fv) == Some(ids));
                }
                let uids = uids_exec(&rows);
                let mut label = String::from_str("ordered_index_probe ");
                label.append(type_label);
                label.append(".");
                label.append(field.as_str());
                let src = VecSource::ordered(label.as_str(), uids, field.as_str(), direction);
                let ghost src_op = Operator::Values(src);
                proof {
                    assert(src.ids@ =~= ids.map_values(|e: EntityId| untyped_id(e.uid)));
                    assert(is_probe_source(src_op, type_label@, fv[0].0, direction_of(fv[0].1), ids));
                }
                let lowered = lower_filter_map(filter);
                let ghost residual = Some(lowered);
                let ghost keys_copy = keys;
                proof {
                    assert(lowered_keys(keys_copy@, fv));
                }
                let root = finish_chain(Box::new(Operator::Values(src)), Some(lowered), keys, after, offset, first, true);
                return BuiltPipeline { root, shape: String::from_str("ordered_index_scan"), used_candidates: true, plan: kept_plan };
            } else {
                proof {
                    assert(opt_cursor_view(probe.cursor) == None::<CursorView>);
                    assert(probe_rows(rt, type_label@, fv) is None);
                }
            }
        } else {
            proof {
                assert(false);
            }
        }
    } else {
        proof {
            if keys@.len() > 0 {
                assert(keys@[0].path.segments@[0] is Field);
            }
            assert(probe_rows(rt, type_label@, fv) is None);
        }
    }
    let seek = planned_full_scan && keys.len() == 0;
    let ghost src_g = *source;
    let ghost keys_g = keys;
    let ghost res_g = residual;
    proof {
        assert(lowered_keys(keys_g@, fv));
    }
    let root = finish_chain(source, residual, keys, after, offset, first, seek);
    proof {
        match text_search {
            Some(t) => {
                assert(is_text_search(src_g, type_label@, *t, search_width(first) as usize));
                assert(lowered_residual(res_g, fields_view(filter@)));
                assert(*root == chain(src_g, res_g, keys_g, cursor_uid(after), offset, first, false));
            },
            None => {
                let plan = planned(metadata@, type_label@, uniques@, filter@);
                assert(tree_of(src_g, type_label@, plan.source));
                assert(residual_view(res_g) == plan.residual);
                assert(seek == streams_whole_type(plan, sort@.len()));
            },
        }
    }
    BuiltPipeline { root, shape, used_candidates, plan: kept_plan }
}

/// Count pipeline for `type_label`: the base source (a text search keeping
/// ten thousand matches, or the candidate plan's source tree) under its
/// residual filter, with no sort, cursor or pagination.
pub fn build_count_pipeline<R: PlannerRuntime>(
    db_name: &str,
    type_label: &str,
    filter: &Vec<(String, QueryValue)>,
    text_search: Option<&(String, String, String, bool)>,
    uniques: &[String],
    metadata: &Vec<(String, QueryTypeMetadata)>,
    runtime: &R,
) -> (p: BuiltPipeline)
    ensures
        match text_search {
            Some(t) => {
                &&& p.shape@ == "text_bm25"@
                &&& !p.used_candidates
                &&& p.plan is None
                &&& exists|src: Operator, residual: Option<LogicalFilter>|
                    #![trigger residual_over(src, residual)]
                    is_text_search(src, type_label@, *t, 10000)
                    && lowered_residual(residual, fields_view(filter@))
                    && *p.root == residual_over(src, residual)
            },
            None => {
                let plan = planned(metadata@, type_label@, uniques@, filter@);
                let narrowed = source_kind(plan.source) != "full_type_scan"@;
                &&& p.used_candidates == narrowed
                &&& p.shape@ == (if narrowed { source_kind(plan.source) } else { "full_type_scan_streaming"@ })
                &&& p.plan matches Some(q) && q@ == plan
                &&& exists|src: Operator, residual: Option<LogicalFilter>|
                    #![trigger residual_over(src, residual)]
                    tree_of(src, type_label@, plan.source)
                    && residual_view(residual) == plan.residual
                    && *p.root == residual_over(src, residual)
            },
        },
{
    proof {
        crate::query_planner::ir::lemma_fields_view(filter@);
    }
    let base = build_base_source(db_name, type_label, filter, uniques, metadata, text_search, 10000);
    let mut kept_plan: Option<CandidatePlan> = None;
    let (source, shape, used_candidates) = match base {
        BaseSource::Search(op, s) => (op, String::from_str(s), false),
        BaseSource::Planned(plan) => {
            let kind = plan.source.kind();
            let narrowed = !same_text(kind, "full_type_scan");
            let shape = if narrowed {
                String::from_str(kind)
            } else {
                String::from_str("full_type_scan_streaming")
            };
            let tree = match build_source_tree(type_label, &plan.source) {
                Ok(op) => op,
                Err(_) => {
                    let uids = match plan.execute_uids(runtime) {
                        Some(u) => u,
                        None => Vec::new(),
                    };
                    Box::new(Operator::Values(VecSource::new("relation_bridge", uids)))
                },
            };
            kept_plan = Some(plan);
            (tree, shape, narrowed)
        },
    };
    let residual: Option<LogicalFilter> = match &kept_plan {
        Some(plan) => match &plan.residual {
            Some(f) => Some(copy_filter(f)),
            None => None,
        },
        None => if filter.len() == 0 {
            None
        } else {
            Some(lower_filter_map(filter))
        },
    };
    let ghost src_g = *source;
    let ghost res_g = residual;
    let root = match residual {
        Some(f) => if !f.is_empty_conjunction() {
            FilterOperator::boxed(source, f)
        } else {
            source
        },
        None => source,
    };
    proof {
        assert(*root == residual_over(src_g, res_g));
    }
    BuiltPipeline { root, shape, used_candidates, plan: kept_plan }
}

} // verus!
