//! Explain renderings of candidate plans, logical queries and filters,
//! and the explain-mode switches.
use vstd::prelude::*;
use crate::query_planner::ir::{
    filters_view, lemma_filters_view, lemma_segments_text, path_text, segments_text, AggregateSpec,
    CursorValue, ExplainMode, FilterView, LogicalFilter, LogicalQuery, OrderKey, QueryRoot, SortDirection,
};
use crate::query_planner::physical_expr::{debug_quote, quoted};
use crate::query_planner::plan::{
    lemma_plans_view, plans_view, residual_view, source_description, source_view, CandidatePlan, CandidateSource,
    NoteView, PlanView, SourceView,
};
use crate::query_planner::value_text::{append_value_debug, value_debug};
use crate::render::{decimal, decimal_string, same_text};

verus! {

/// True for the modes that ask for an explain rendering.
pub fn wants_explain(mode: ExplainMode) -> (b: bool)
    ensures
        b == (mode is Text || mode is Json),
{
    match mode {
        ExplainMode::Text | ExplainMode::Json => true,
        ExplainMode::Off => false,
    }
}

/// Maps a client-level `explain: Boolean` flag to the explain mode.
pub fn explain_mode_from_flag(flag: bool) -> (m: ExplainMode)
    ensures
        m == if flag { ExplainMode::Text } else { ExplainMode::Off },
{
    if flag {
        ExplainMode::Text
    } else {
        ExplainMode::Off
    }
}

/// A filter rendered for explain output: `AND(..)`, `OR(..)`, `NOT(..)`,
/// `path op value` and `RELATION field { :Type filter}`.
pub open spec fn filter_text(f: FilterView) -> Seq<char>
    decreases f, 1int,
{
    match f {
        FilterView::And(parts) => "AND("@ + parts_text(parts) + ")"@,
        FilterView::Or(parts) => "OR("@ + parts_text(parts) + ")"@,
        FilterView::Not(inner) => "NOT("@ + filter_text(*inner) + ")"@,
        FilterView::Predicate(p) => segments_text(p.path) + " "@ + p.op.name() + " "@ + value_debug(p.value),
        FilterView::Relation { field, target_type, filter } => "RELATION "@ + field + " { "@
            + (if target_type.len() == 0 { Seq::empty() } else { ":"@ + target_type + " "@ })
            + filter_text(*filter) + "}"@,
    }
}

/// Filters rendered and joined with `, `.
pub open spec fn parts_text(parts: Seq<FilterView>) -> Seq<char>
    decreases parts, 0int,
{
    if parts.len() == 0 {
        Seq::empty()
    } else if parts.len() == 1 {
        filter_text(parts[0])
    } else {
        parts_text(parts.drop_last()) + ", "@ + filter_text(parts.last())
    }
}

fn append_parts(s: &mut String, parts: &Vec<LogicalFilter>)
    ensures
        final(s)@ == old(s)@ + parts_text(filters_view(parts@)),
    decreases parts, 0int,
{
    let ghost start = s@;
    let ghost fv = filters_view(parts@);
    proof {
        lemma_filters_view(parts@);
    }
    let mut i: usize = 0;
    while i < parts.len()
        invariant
            i <= parts@.len(),
            fv == filters_view(parts@),
            fv.len() == parts@.len(),
            forall|j: int| 0 <= j < parts@.len() ==> #[trigger] fv[j] == parts@[j]@,
            s@ == start + parts_text(fv.take(i as int)),
        decreases parts@.len() - i,
    {
        proof {
            assert(decreases_to!(*parts => parts@));
            assert(decreases_to!(parts@ => parts@[i as int]));
        }
        if i > 0 {
            s.append(", ");
        }
        let r = render_filter(&parts[i]);
        s.append(r.as_str());
        proof {
            let t = fv.take(i as int + 1);
            assert(t.drop_last() =~= fv.take(i as int));
            assert(t.last() == parts@[i as int]@);
            if i == 0 {
                assert(fv.take(0) =~= Seq::<FilterView>::empty());
                assert(t[0] == parts@[0]@);
            }
        }
        i = i + 1;
    }
    proof {
        assert(fv.take(parts@.len() as int) =~= fv);
    }
}

/// Renders `filter` (see [`filter_text`]).
pub fn render_filter(filter: &LogicalFilter) -> (s: String)
    ensures
        s@ == filter_text(filter@),
    decreases filter, 1int,
{
    match filter {
        LogicalFilter::And(parts) => {
            let mut s = String::from_str("AND(");
            append_parts(&mut s, parts);
            s.append(")");
            proof {
                assert(filter@ == FilterView::And(filters_view(parts@)));
            }
            s
        },
        LogicalFilter::Or(parts) => {
            let mut s = String::from_str("OR(");
            append_parts(&mut s, parts);
            s.append(")");
            proof {
                assert(filter@ == FilterView::Or(filters_view(parts@)));
            }
            s
        },
        LogicalFilter::Not(inner) => {
            let mut s = String::from_str("NOT(");
            let r = render_filter(inner);
            s.append(r.as_str());
            s.append(")");
            s
        },
        LogicalFilter::Predicate(p) => {
            let mut s = p.path.to_string();
            proof {
                lemma_segments_text(p.path.segments@);
            }
            s.append(" ");
            s.append(p.op.as_str());
            s.append(" ");
            append_value_debug(&mut s, &p.value);
            s
        },
        LogicalFilter::Relation { field, target_type, filter: inner } => {
            let mut s = String::from_str("RELATION ");
            s.append(field.as_str());
            s.append(" { ");
            let ghost head = s@;
            proof {
                reveal_strlit("");
            }
            let ghost target = if target_type@.len() == 0 { Seq::<char>::empty() } else { ":"@ + target_type@ + " "@ };
            let blank = same_text(target_type.as_str(), "");
            proof {
                assert(""@ =~= Seq::<char>::empty());
                if target_type@.len() == 0 {
                    assert(target_type@ =~= Seq::<char>::empty());
                }
            }
            if !blank {
                s.append(":");
                s.append(target_type.as_str());
                s.append(" ");
            }
            proof {
                assert(s@ =~= head + target);
            }
            let r = render_filter(inner);
            s.append(r.as_str());
            s.append("}");
            proof {
                assert(s@ =~= head + target + r@ + "}"@);
            }
            s
        },
    }
}

/// `n` levels of two-space indentation.
pub open spec fn indent(n: nat) -> Seq<char>
    decreases n,
{
    if n == 0 {
        Seq::empty()
    } else {
        indent((n - 1) as nat) + "  "@
    }
}

/// How deeply a source nests child plans.
pub open spec fn source_height(src: SourceView) -> nat
    decreases src, 1int,
{
    match src {
        SourceView::Intersection(children) => 1 + children_height(children),
        SourceView::Union(children) => 1 + children_height(children),
        SourceView::RelationExpansion { child_plan, .. } => 1 + source_height(child_plan.source),
        _ => 0,
    }
}

/// The greatest height among the children's sources.
pub open spec fn children_height(children: Seq<PlanView>) -> nat
    decreases children, 0int,
{
    if children.len() == 0 {
        0
    } else {
        let rest = children_height(children.drop_last());
        let last = source_height(children.last().source);
        if rest < last { last } else { rest }
    }
}

proof fn lemma_children_height(children: Seq<PlanView>, i: int)
    requires
        0 <= i < children.len(),
    ensures
        source_height(children[i].source) <= children_height(children),
    decreases children.len(),
{
    if i < children.len() - 1 {
        lemma_children_height(children.drop_last(), i);
        assert(children.drop_last()[i] == children[i]);
    }
}

/// A source and, beneath it, its child plans' sources, one line each:
/// `- description` indented by one level more than `depth`.
pub open spec fn source_lines(src: SourceView, depth: nat) -> Seq<char>
    decreases src, 1int,
{
    indent(depth + 1) + "- "@ + source_description(src) + "\n"@ + match src {
        SourceView::Intersection(children) => children_lines(children, depth + 1),
        SourceView::Union(children) => children_lines(children, depth + 1),
        SourceView::RelationExpansion { child_plan, .. } => source_lines(child_plan.source, depth + 1),
        _ => Seq::empty(),
    }
}

/// The source lines of each child plan, in order.
pub open spec fn children_lines(children: Seq<PlanView>, depth: nat) -> Seq<char>
    decreases children, 0int,
{
    if children.len() == 0 {
        Seq::empty()
    } else {
        children_lines(children.drop_last(), depth) + source_lines(children.last().source, depth)
    }
}

/// One line per note: `[kind] detail`, indented one level.
pub open spec fn notes_lines(notes: Seq<NoteView>) -> Seq<char>
    decreases notes.len(),
{
    if notes.len() == 0 {
        Seq::empty()
    } else {
        notes_lines(notes.drop_last()) + "  ["@ + notes.last().kind + "] "@ + notes.last().detail + "\n"@
    }
}

/// The explain text of a candidate plan: its type, its notes, its source
/// tree, and its residual filter when it has one.
pub open spec fn plan_text(plan: PlanView) -> Seq<char> {
    "CandidatePlan(type="@ + plan.type_label + ")\n"@ + notes_lines(plan.notes) + source_lines(plan.source, 1)
        + match plan.residual {
            Some(f) => "  residual: "@ + filter_text(f) + "\n"@,
            None => Seq::empty(),
        }
}

fn append_source(source: &CandidateSource, depth: usize, out: &mut String)
    requires
        depth + source_height(source_view(*source)) < usize::MAX,
    ensures
        final(out)@ == old(out)@ + source_lines(source_view(*source), depth as nat),
    decreases source, 1int,
{
    let ghost start = out@;
    let mut i: usize = 0;
    while i <= depth
        invariant
            i <= depth + 1,
            depth < usize::MAX,
            out@ == start + indent(i as nat),
        decreases depth + 1 - i,
    {
        out.append("  ");
        i = i + 1;
    }
    out.append("- ");
    let d = source.describe();
    out.append(d.as_str());
    out.append("\n");
    let ghost head = out@;
    proof {
        assert(head == start + indent(depth as nat + 1) + "- "@ + source_description(source_view(*source)) + "\n"@);
    }
    match source {
        CandidateSource::Intersection(children) => {
            append_children(children, depth + 1, out);
            proof {
                assert(source_view(*source) == SourceView::Intersection(plans_view(children@)));
            }
        },
        CandidateSource::Union(children) => {
            append_children(children, depth + 1, out);
            proof {
                assert(source_view(*source) == SourceView::Union(plans_view(children@)));
            }
        },
        CandidateSource::RelationExpansion { child_plan, .. } => {
            append_source(&child_plan.source, depth + 1, out);
        },
        _ => {
            proof {
                assert(out@ =~= head + Seq::<char>::empty());
            }
        },
    }
}

fn append_children(children: &Vec<CandidatePlan>, depth: usize, out: &mut String)
    requires
        depth + children_height(plans_view(children@)) < usize::MAX,
    ensures
        final(out)@ == old(out)@ + children_lines(plans_view(children@), depth as nat),
    decreases children, 0int,
{
    let ghost start = out@;
    let ghost pv = plans_view(children@);
    proof {
        lemma_plans_view(children@);
    }
    let mut i: usize = 0;
    while i < children.len()
        invariant
            i <= children@.len(),
            pv == plans_view(children@),
            pv.len() == children@.len(),
            forall|j: int| 0 <= j < children@.len() ==> #[trigger] pv[j] == children@[j]@,
            depth + children_height(pv) < usize::MAX,
            out@ == start + children_lines(pv.take(i as int), depth as nat),
        decreases children@.len() - i,
    {
        proof {
            assert(decreases_to!(*children => children@));
            assert(decreases_to!(children@ => children@[i as int]));
            assert(decreases_to!(children@[i as int] => children@[i as int].source));
            lemma_children_height(pv, i as int);
            assert(pv[i as int].source == source_view(children@[i as int].source));
        }
        append_source(&children[i].source, depth, out);
        proof {
            let t = pv.take(i as int + 1);
            assert(t.drop_last() =~= pv.take(i as int));
            assert(t.last() == pv[i as int]);
        }
        i = i + 1;
    }
    proof {
        assert(pv.take(children@.len() as int) =~= pv);
    }
}

/// Renders a candidate plan (see [`plan_text`]).
pub fn render_candidate_plan(plan: &CandidatePlan) -> (s: String)
    requires
        1 + source_height(plan@.source) < usize::MAX,
    ensures
        s@ == plan_text(plan@),
{
    let mut out = String::from_str("CandidatePlan(type=");
    out.append(plan.type_label.as_str());
    out.append(")\n");
    let ghost head = out@;
    let ghost nv = plan@.notes;
    let mut i: usize = 0;
    while i < plan.notes.len()
        invariant
            i <= plan.notes@.len(),
            nv == plan@.notes,
            nv.len() == plan.notes@.len(),
            out@ == head + notes_lines(nv.take(i as int)),
        decreases plan.notes@.len() - i,
    {
        out.append("  [");
        out.append(plan.notes[i].kind);
        out.append("] ");
        out.append(plan.notes[i].detail.as_str());
        out.append("\n");
        proof {
            let t = nv.take(i as int + 1);
            assert(t.drop_last() =~= nv.take(i as int));
            assert(t.last() == nv[i as int]);
        }
        i = i + 1;
    }
    proof {
        assert(nv.take(plan.notes@.len() as int) =~= nv);
    }
    append_source(&plan.source, 1, &mut out);
    let ghost body = out@;
    match &plan.residual {
        Some(residual) => {
            out.append("  residual: ");
            let r = render_filter(residual);
            out.append(r.as_str());
            out.append("\n");
        },
        None => {
            proof {
                assert(out@ =~= body + Seq::<char>::empty());
            }
        },
    }
    out
}

/// A query root rendered for explain output.
pub open spec fn root_text(root: QueryRoot) -> Seq<char> {
    match root {
        QueryRoot::TypeScan { type_label } => "TypeScan("@ + type_label@ + ")"@,
        QueryRoot::UniqueLookup { type_label, field, value } => "UniqueLookup("@ + type_label@ + "."@ + field@
            + " = "@ + value_debug(value@) + ")"@,
        QueryRoot::IdLookup { type_label, id } => "IdLookup("@ + type_label@ + "."@ + decimal(id.uid as nat) + ")"@,
        QueryRoot::RelationScan { parent_type, field, .. } => "RelationScan("@ + parent_type@ + " via "@ + field@ + ")"@,
        QueryRoot::CandidateSet { type_label, source } => "CandidateSet("@ + type_label@ + ": "@
            + source_description(source_view(source)) + ")"@,
    }
}

/// Renders a query root (see [`root_text`]).
pub fn render_root(root: &QueryRoot) -> (s: String)
    ensures
        s@ == root_text(*root),
{
    match root {
        QueryRoot::TypeScan { type_label } => {
            let mut s = String::from_str("TypeScan(");
            s.append(type_label.as_str());
            s.append(")");
            s
        },
        QueryRoot::UniqueLookup { type_label, field, value } => {
            let mut s = String::from_str("UniqueLookup(");
            s.append(type_label.as_str());
            s.append(".");
            s.append(field.as_str());
            s.append(" = ");
            append_value_debug(&mut s, value);
            s.append(")");
            s
        },
        QueryRoot::IdLookup { type_label, id } => {
            let mut s = String::from_str("IdLookup(");
            s.append(type_label.as_str());
            s.append(".");
            let raw = id.raw();
            s.append(raw.as_str());
            s.append(")");
            s
        },
        QueryRoot::RelationScan { parent_type, field, .. } => {
            let mut s = String::from_str("RelationScan(");
            s.append(parent_type.as_str());
            s.append(" via ");
            s.append(field.as_str());
            s.append(")");
            s
        },
        QueryRoot::CandidateSet { type_label, source } => {
            let mut s = String::from_str("CandidateSet(");
            s.append(type_label.as_str());
            s.append(": ");
            let d = source.describe();
            s.append(d.as_str());
            s.append(")");
            s
        },
    }
}

/// An order key rendered as `path ASC` or `path DESC`.
pub open spec fn key_text(k: OrderKey) -> Seq<char> {
    path_text(k.path.segments@) + match k.direction {
        SortDirection::Asc => " ASC"@,
        SortDirection::Desc => " DESC"@,
    }
}

/// Order keys rendered and joined with `, `.
pub open spec fn keys_text(keys: Seq<OrderKey>) -> Seq<char>
    decreases keys.len(),
{
    if keys.len() == 0 {
        Seq::empty()
    } else if keys.len() == 1 {
        key_text(keys[0])
    } else {
        keys_text(keys.drop_last()) + ", "@ + key_text(keys.last())
    }
}

/// Aggregate aliases rendered as calls (`alias()`) and joined with `, `.
pub open spec fn aggregates_text(aggs: Seq<AggregateSpec>) -> Seq<char>
    decreases aggs.len(),
{
    if aggs.len() == 0 {
        Seq::empty()
    } else if aggs.len() == 1 {
        aggs[0].alias@ + "()"@
    } else {
        aggregates_text(aggs.drop_last()) + ", "@ + aggs.last().alias@ + "()"@
    }
}

/// An optional count in debug form: `Some(n)` or `None`.
pub open spec fn count_debug(n: Option<usize>) -> Seq<char> {
    match n {
        Some(v) => "Some("@ + decimal(v as nat) + ")"@,
        None => "None"@,
    }
}

/// The resume point of a cursor in debug form: an entity's uid in quotes,
/// `"?"` for any other cursor, `None` without one.
pub open spec fn after_debug(c: Option<CursorValue>) -> Seq<char> {
    match c {
        Some(CursorValue::Entity(e)) => "Some("@ + quoted(decimal(e.uid as nat)) + ")"@,
        Some(_) => "Some("@ + quoted("?"@) + ")"@,
        None => "None"@,
    }
}

/// The explain text of a logical query: its root, its filter (or `none`),
/// its order keys when there are any, its pagination when a page size or
/// offset is set, and its aggregates when there are any.
pub open spec fn query_text(q: LogicalQuery) -> Seq<char> {
    "LogicalQuery\n"@ + "  root: "@ + root_text(q.root) + "\n"@
        + match q.filter {
            Some(f) => "  filter: "@ + filter_text(f@) + "\n"@,
            None => "  filter: none\n"@,
        }
        + order_line(q.order_by@)
        + pagination_line(q.pagination.first, q.pagination.offset, q.pagination.after)
        + aggregates_line(q.aggregates@)
}

fn append_count_debug(s: &mut String, n: Option<usize>)
    ensures
        final(s)@ == old(s)@ + count_debug(n),
{
    match n {
        Some(v) => {
            s.append("Some(");
            let d = decimal_string(v as u64);
            s.append(d.as_str());
            s.append(")");
        },
        None => s.append("None"),
    }
}

/// The order line of a query: its keys, when it has any.
pub open spec fn order_line(keys: Seq<OrderKey>) -> Seq<char> {
    if keys.len() > 0 { "  order_by: "@ + keys_text(keys) + "\n"@ } else { Seq::empty() }
}

/// The pagination line of a query, when a page size or offset is set.
pub open spec fn pagination_line(first: Option<usize>, offset: Option<usize>, after: Option<CursorValue>) -> Seq<char> {
    if first is Some || offset is Some {
        "  pagination: first="@ + count_debug(first) + " offset="@ + count_debug(offset) + " after="@
            + after_debug(after) + "\n"@
    } else {
        Seq::empty()
    }
}

/// The aggregates line of a query, when it has any.
pub open spec fn aggregates_line(aggs: Seq<AggregateSpec>) -> Seq<char> {
    if aggs.len() > 0 { "  aggregates: "@ + aggregates_text(aggs) + "\n"@ } else { Seq::empty() }
}

fn append_order_line(out: &mut String, keys: &Vec<OrderKey>)
    ensures
        final(out)@ == old(out)@ + order_line(keys@),
{
    let ghost start = out@;
    if keys.len() > 0 {
        out.append("  order_by: ");
        let ghost head = out@;
        let mut i: usize = 0;
        while i < keys.len()
            invariant
                i <= keys@.len(),
                out@ == head + keys_text(keys@.take(i as int)),
            decreases keys@.len() - i,
        {
            if i > 0 {
                out.append(", ");
            }
            let p = keys[i].path.to_string();
            out.append(p.as_str());
            match keys[i].direction {
                SortDirection::Asc => out.append(" ASC"),
                SortDirection::Desc => out.append(" DESC"),
            }
            proof {
                let t = keys@.take(i as int + 1);
                assert(t.drop_last() =~= keys@.take(i as int));
                assert(t.last() == keys@[i as int]);
                if i == 0 {
                    assert(keys@.take(0) =~= Seq::<OrderKey>::empty());
                }
            }
            i = i + 1;
        }
        proof {
            assert(keys@.take(keys@.len() as int) =~= keys@);
        }
        out.append("\n");
    } else {
        proof {
            assert(out@ =~= start + Seq::<char>::empty());
        }
    }
}

fn append_pagination_line(out: &mut String, first: Option<usize>, offset: Option<usize>, after: &Option<CursorValue>)
    ensures
        final(out)@ == old(out)@ + pagination_line(first, offset, *after),
{
    let ghost start = out@;
    if first.is_some() || offset.is_some() {
        out.append("  pagination: first=");
        append_count_debug(out, first);
        out.append(" offset=");
        append_count_debug(out, offset);
        out.append(" after=");
        match after {
            Some(CursorValue::Entity(e)) => {
                out.append("Some(");
                let raw = e.raw();
                let q = debug_quote(raw.as_str());
                out.append(q.as_str());
                out.append(")");
            },
            Some(_) => {
                out.append("Some(");
                let q = debug_quote("?");
                out.append(q.as_str());
                out.append(")");
            },
            None => out.append("None"),
        }
        out.append("\n");
    } else {
        proof {
            assert(out@ =~= start + Seq::<char>::empty());
        }
    }
}

fn append_aggregates_line(out: &mut String, aggs: &Vec<AggregateSpec>)
    ensures
        final(out)@ == old(out)@ + aggregates_line(aggs@),
{
    let ghost start = out@;
    if aggs.len() > 0 {
        out.append("  aggregates: ");
        let ghost head = out@;
        let mut i: usize = 0;
        while i < aggs.len()
            invariant
                i <= aggs@.len(),
                out@ == head + aggregates_text(aggs@.take(i as int)),
            decreases aggs@.len() - i,
        {
            if i > 0 {
                out.append(", ");
            }
            out.append(aggs[i].alias.as_str());
            out.append("()");
            proof {
                let t = aggs@.take(i as int + 1);
                assert(t.drop_last() =~= aggs@.take(i as int));
                assert(t.last() == aggs@[i as int]);
                if i == 0 {
                    assert(aggs@.take(0) =~= Seq::<AggregateSpec>::empty());
                }
            }
            i = i + 1;
        }
        proof {
            assert(aggs@.take(aggs@.len() as int) =~= aggs@);
        }
        out.append("\n");
    } else {
        proof {
            assert(out@ =~= start + Seq::<char>::empty());
        }
    }
}

/// Renders a logical query (see [`query_text`]).
pub fn render_logical_query(query: &LogicalQuery) -> (s: String)
    ensures
        s@ == query_text(*query),
{
    let mut out = String::from_str("LogicalQuery\n");
    out.append("  root: ");
    let r = render_root(&query.root);
    out.append(r.as_str());
    out.append("\n");
    match &query.filter {
        Some(f) => {
            out.append("  filter: ");
            let t = render_filter(f);
            out.append(t.as_str());
            out.append("\n");
        },
        None => out.append("  filter: none\n"),
    }
    append_order_line(&mut out, &query.order_by);
    append_pagination_line(&mut out, query.pagination.first, query.pagination.offset, &query.pagination.after);
    append_aggregates_line(&mut out, &query.aggregates);
    out
}

} // verus!
