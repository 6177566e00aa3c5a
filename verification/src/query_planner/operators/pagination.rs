//! Pagination operators: positional cursor skip, offset, and limit, applied
//! in that order after sorting.
use vstd::prelude::*;
use crate::query_planner::ir::EntityId;
use crate::render::{append_debug_option, concat_num, debug_option, decimal};
use super::{
    clock_now, context_extends, flatten_batches, flow_of, make_stat, CardinalityHint, ExecContext,
    Flow, FlowResult, Operator, OperatorKind, OutputOrdering, RowBatch,
};
use crate::query_planner::traits::PlannerRuntime;

verus! {

/// Cursor handling when the cursor uid does not occur in the rows.
#[derive(Debug, Clone, Copy, PartialEq, Eq, Structural)]
pub enum CursorMode {
    /// Keep every row (unsorted streaming tail).
    KeepAllIfAbsent,
    /// Keep nothing (sorted index seek).
    EmptyIfAbsent,
}

/// Index of the first row whose uid is `uid`.
pub open spec fn first_position(rows: Seq<EntityId>, uid: u64) -> Option<int>
    decreases rows.len(),
{
    if rows.len() == 0 {
        None
    } else if rows[0].uid == uid {
        Some(0)
    } else {
        match first_position(rows.drop_first(), uid) {
            Some(p) => Some(p + 1),
            None => None,
        }
    }
}

/// A first position lies inside the rows and carries the uid; before it
/// no row does.
pub proof fn lemma_first_position(rows: Seq<EntityId>, uid: u64)
    ensures
        match first_position(rows, uid) {
            Some(p) => 0 <= p < rows.len() && rows[p].uid == uid
                && forall|j: int| 0 <= j < p ==> rows[j].uid != uid,
            None => forall|j: int| 0 <= j < rows.len() ==> rows[j].uid != uid,
        },
    decreases rows.len(),
{
    if rows.len() > 0 && rows[0].uid != uid {
        lemma_first_position(rows.drop_first(), uid);
        match first_position(rows.drop_first(), uid) {
            Some(p) => {
                assert forall|j: int| 0 <= j < p + 1 implies rows[j].uid != uid by {
                    if j > 0 {
                        assert(rows[j] == rows.drop_first()[j - 1]);
                    }
                }
            },
            None => {
                assert forall|j: int| 0 <= j < rows.len() implies rows[j].uid != uid by {
                    if j > 0 {
                        assert(rows[j] == rows.drop_first()[j - 1]);
                    }
                }
            },
        }
    }
}

/// Rows strictly after the first occurrence of the cursor uid; an absent
/// cursor keeps everything or nothing depending on `mode`.
pub open spec fn cursor_skipped(rows: Seq<EntityId>, after: Option<u64>, mode: CursorMode) -> Seq<EntityId> {
    match after {
        None => rows,
        Some(uid) => match first_position(rows, uid) {
            Some(p) => rows.skip(p + 1),
            None => if mode == CursorMode::EmptyIfAbsent { Seq::empty() } else { rows },
        },
    }
}

/// Rows after skipping the first `offset`.
pub open spec fn offset_rows(rows: Seq<EntityId>, offset: usize) -> Seq<EntityId> {
    if offset >= rows.len() { Seq::empty() } else { rows.skip(offset as int) }
}

/// The first `limit` rows.
pub open spec fn limit_rows(rows: Seq<EntityId>, limit: usize) -> Seq<EntityId> {
    if limit >= rows.len() { rows } else { rows.take(limit as int) }
}

/// Declared cardinality under a limit: `AtMostOne` survives a positive
/// limit, a bound shrinks to the limit, anything else becomes `Bounded(limit)`.
pub open spec fn limit_cardinality(input: CardinalityHint, limit: usize) -> CardinalityHint {
    match input {
        CardinalityHint::AtMostOne => if limit >= 1 { CardinalityHint::AtMostOne } else { CardinalityHint::Bounded(limit) },
        CardinalityHint::Bounded(n) => CardinalityHint::Bounded(if n <= limit { n } else { limit }),
        CardinalityHint::Unbounded => CardinalityHint::Bounded(limit),
    }
}

pub open spec fn mode_name(mode: CursorMode) -> Seq<char> {
    match mode {
        CursorMode::KeepAllIfAbsent => "KeepAllIfAbsent"@,
        CursorMode::EmptyIfAbsent => "EmptyIfAbsent"@,
    }
}

/// Position of the first row with `uid`.
fn find_uid(rows: &Vec<EntityId>, uid: u64) -> (r: Option<usize>)
    ensures
        match r {
            Some(i) => first_position(rows@, uid) == Some(i as int) && i < rows@.len(),
            None => first_position(rows@, uid) is None,
        },
{
    proof {
        lemma_first_position(rows@, uid);
        assert(rows@.skip(0) =~= rows@);
    }
    let mut i: usize = 0;
    while i < rows.len()
        invariant
            i <= rows@.len(),
            first_position(rows@, uid) == match first_position(rows@.skip(i as int), uid) {
                Some(p) => Some(p + i),
                None => None::<int>,
            },
        decreases rows@.len() - i,
    {
        if rows[i].uid == uid {
            return Some(i);
        }
        proof {
            assert(rows@.skip(i as int).drop_first() =~= rows@.skip(i as int + 1));
        }
        i = i + 1;
    }
    proof {
        assert(rows@.skip(i as int).len() == 0);
    }
    None
}

pub(crate) fn single_batch(rows: Vec<EntityId>) -> (out: Vec<RowBatch>)
    ensures
        super::batches_view(out@) == seq![rows@],
{
    let mut out = Vec::new();
    out.push(RowBatch(rows));
    proof {
        assert(super::batches_view(out@) =~= seq![rows@]);
    }
    out
}

/// Positional cursor skip over the materialized row sequence.
pub struct CursorSkipOperator {
    pub input: Box<Operator>,
    pub after: Option<u64>,
    pub mode: CursorMode,
}

impl CursorSkipOperator {
    /// Absent cursor keeps the whole sequence.
    pub fn new(input: Box<Operator>, after: Option<u64>) -> (r: Self)
        ensures
            r.input == input,
            r.after == after,
            r.mode == CursorMode::KeepAllIfAbsent,
    {
        CursorSkipOperator { input, after, mode: CursorMode::KeepAllIfAbsent }
    }

    pub fn boxed(input: Box<Operator>, after: Option<u64>) -> (r: Box<Operator>)
        ensures
            *r == Operator::CursorSkip((CursorSkipOperator { input, after, mode: CursorMode::KeepAllIfAbsent })),
    {
        Box::new(Operator::CursorSkip(CursorSkipOperator::new(input, after)))
    }

    /// Absent cursor yields nothing (ordered index seek).
    pub fn seek(input: Box<Operator>, after: Option<u64>) -> (r: Self)
        ensures
            r.input == input,
            r.after == after,
            r.mode == CursorMode::EmptyIfAbsent,
    {
        CursorSkipOperator { input, after, mode: CursorMode::EmptyIfAbsent }
    }

    pub fn seek_boxed(input: Box<Operator>, after: Option<u64>) -> (r: Box<Operator>)
        ensures
            *r == Operator::CursorSkip((CursorSkipOperator { input, after, mode: CursorMode::EmptyIfAbsent })),
    {
        Box::new(Operator::CursorSkip(CursorSkipOperator::seek(input, after)))
    }

    pub fn kind(&self) -> (k: OperatorKind)
        ensures
            k == OperatorKind::Limit,
    {
        OperatorKind::Limit
    }

    /// The explain detail line.
    pub open spec fn describe(self) -> Seq<char> {
        "cursor_skip(after="@ + debug_option(self.after) + ", mode="@ + mode_name(self.mode) + ")"@
    }

    pub fn detail(&self) -> (s: String)
        ensures
            s@ == self.describe(),
    {
        let mut s = String::from_str("cursor_skip(after=");
        append_debug_option(&mut s, self.after);
        s.append(", mode=");
        match self.mode {
            CursorMode::KeepAllIfAbsent => s.append("KeepAllIfAbsent"),
            CursorMode::EmptyIfAbsent => s.append("EmptyIfAbsent"),
        }
        s.append(")");
        s
    }

    pub fn cardinality(&self) -> (c: CardinalityHint)
        ensures
            c == self.input.spec_cardinality(),
        decreases self,
    {
        self.input.cardinality()
    }

    pub fn output_ordering(&self) -> (o: OutputOrdering)
        ensures
            o == self.input.spec_ordering(),
        decreases self,
    {
        self.input.output_ordering()
    }

    /// Keeps the rows strictly after the first row carrying the cursor uid.
    pub fn execute<R: PlannerRuntime>(&self, ctx: &mut ExecContext<R>) -> (r: FlowResult<Vec<RowBatch>>)
        ensures
            flow_of(r) == Operator::CursorSkip(*self).spec_execute(old(ctx).spec_runtime(), old(ctx).spec_depth()),
            context_extends(*old(ctx), *final(ctx)),
        decreases self,
    {
        let start = clock_now();
        let batches = match self.input.execute(ctx) {
            FlowResult::Rows(b) => b,
            FlowResult::Break => return FlowResult::Break,
            FlowResult::Continue => return FlowResult::Continue,
            FlowResult::Error(e) => return FlowResult::Error(e),
        };
        let mut rows = flatten_batches(batches);
        let ghost flat = rows@;
        let rows_in = rows.len();
        let mut notes: Vec<String> = Vec::new();
        match self.after {
            Some(after_uid) => {
                match find_uid(&rows, after_uid) {
                    Some(pos) => {
                        let mut note = concat_num("cursor after=", after_uid, " found at pos ");
                        crate::render::append_decimal(&mut note, pos as u64);
                        notes.push(note);
                        rows = rows.split_off(pos + 1);
                    },
                    None => {
                        if self.mode == CursorMode::EmptyIfAbsent {
                            notes.push(concat_num("cursor after=", after_uid, " absent in ordered stream; yielding none"));
                            rows.clear();
                        } else {
                            notes.push(concat_num("cursor after=", after_uid, " not found; kept all"));
                        }
                    },
                }
            },
            None => {
                notes.push(String::from_str("no cursor"));
            },
        }
        proof {
            assert(rows@ =~= cursor_skipped(flat, self.after, self.mode));
        }
        let rows_out = rows.len();
        ctx.record(make_stat("limit", self.detail(), rows_in, rows_out, &start, notes));
        FlowResult::Rows(single_batch(rows))
    }
}

/// Skips the first `offset` rows of the accumulated stream.
pub struct OffsetOperator {
    pub input: Box<Operator>,
    pub offset: usize,
}

impl OffsetOperator {
    pub fn new(input: Box<Operator>, offset: usize) -> (r: Self)
        ensures
            r.input == input,
            r.offset == offset,
    {
        OffsetOperator { input, offset }
    }

    pub fn boxed(input: Box<Operator>, offset: usize) -> (r: Box<Operator>)
        ensures
            *r == Operator::Offset((OffsetOperator { input, offset })),
    {
        Box::new(Operator::Offset(OffsetOperator { input, offset }))
    }

    pub fn kind(&self) -> (k: OperatorKind)
        ensures
            k == OperatorKind::Limit,
    {
        OperatorKind::Limit
    }

    /// The explain detail line.
    pub open spec fn describe(self) -> Seq<char> {
        "offset("@ + decimal(self.offset as nat) + ")"@
    }

    pub fn detail(&self) -> (s: String)
        ensures
            s@ == self.describe(),
    {
        concat_num("offset(", self.offset as u64, ")")
    }

    pub fn cardinality(&self) -> (c: CardinalityHint)
        ensures
            c == self.input.spec_cardinality(),
        decreases self,
    {
        self.input.cardinality()
    }

    pub fn output_ordering(&self) -> (o: OutputOrdering)
        ensures
            o == self.input.spec_ordering(),
        decreases self,
    {
        self.input.output_ordering()
    }

    pub fn execute<R: PlannerRuntime>(&self, ctx: &mut ExecContext<R>) -> (r: FlowResult<Vec<RowBatch>>)
        ensures
            flow_of(r) == Operator::Offset(*self).spec_execute(old(ctx).spec_runtime(), old(ctx).spec_depth()),
            context_extends(*old(ctx), *final(ctx)),
        decreases self,
    {
        let start = clock_now();
        let batches = match self.input.execute(ctx) {
            FlowResult::Rows(b) => b,
            FlowResult::Break => return FlowResult::Break,
            FlowResult::Continue => return FlowResult::Continue,
            FlowResult::Error(e) => return FlowResult::Error(e),
        };
        let mut rows = flatten_batches(batches);
        let rows_in = rows.len();
        let skip = if self.offset < rows.len() { self.offset } else { rows.len() };
        rows = rows.split_off(skip);
        proof {
            if self.offset >= rows_in {
                assert(rows@ =~= Seq::<EntityId>::empty());
            }
        }
        let rows_out = rows.len();
        let mut notes: Vec<String> = Vec::new();
        let mut note = String::from_str("skipped ");
        crate::render::append_decimal(&mut note, skip as u64);
        notes.push(note);
        ctx.record(make_stat("limit", self.detail(), rows_in, rows_out, &start, notes));
        FlowResult::Rows(single_batch(rows))
    }
}

/// Truncates the output to at most `limit` rows.
pub struct LimitOperator {
    pub input: Box<Operator>,
    pub limit: usize,
}

impl LimitOperator {
    pub fn new(input: Box<Operator>, limit: usize) -> (r: Self)
        ensures
            r.input == input,
            r.limit == limit,
    {
        LimitOperator { input, limit }
    }

    pub fn boxed(input: Box<Operator>, limit: usize) -> (r: Box<Operator>)
        ensures
            *r == Operator::Limit((LimitOperator { input, limit })),
    {
        Box::new(Operator::Limit(LimitOperator { input, limit }))
    }

    pub fn kind(&self) -> (k: OperatorKind)
        ensures
            k == OperatorKind::Limit,
    {
        OperatorKind::Limit
    }

    /// The explain detail line.
    pub open spec fn describe(self) -> Seq<char> {
        "limit("@ + decimal(self.limit as nat) + ")"@
    }

    pub fn detail(&self) -> (s: String)
        ensures
            s@ == self.describe(),
    {
        concat_num("limit(", self.limit as u64, ")")
    }

    /// Limit tightens any declared bound.
    pub fn cardinality(&self) -> (c: CardinalityHint)
        ensures
            c == limit_cardinality(self.input.spec_cardinality(), self.limit),
        decreases self,
    {
        match self.input.cardinality() {
            CardinalityHint::AtMostOne => {
                if self.limit >= 1 {
                    CardinalityHint::AtMostOne
                } else {
                    CardinalityHint::Bounded(self.limit)
                }
            },
            CardinalityHint::Bounded(n) => CardinalityHint::Bounded(if n <= self.limit { n } else { self.limit }),
            CardinalityHint::Unbounded => CardinalityHint::Bounded(self.limit),
        }
    }

    pub fn output_ordering(&self) -> (o: OutputOrdering)
        ensures
            o == self.input.spec_ordering(),
        decreases self,
    {
        self.input.output_ordering()
    }

    pub fn execute<R: PlannerRuntime>(&self, ctx: &mut ExecContext<R>) -> (r: FlowResult<Vec<RowBatch>>)
        ensures
            flow_of(r) == Operator::Limit(*self).spec_execute(old(ctx).spec_runtime(), old(ctx).spec_depth()),
            context_extends(*old(ctx), *final(ctx)),
        decreases self,
    {
        let start = clock_now();
        let batches = match self.input.execute(ctx) {
            FlowResult::Rows(b) => b,
            FlowResult::Break => return FlowResult::Break,
            FlowResult::Continue => return FlowResult::Continue,
            FlowResult::Error(e) => return FlowResult::Error(e),
        };
        let mut rows = flatten_batches(batches);
        let ghost flat = rows@;
        let rows_in = rows.len();
        rows.truncate(self.limit);
        proof {
            assert(limit_rows(flat, self.limit) =~= rows@);
        }
        let rows_out = rows.len();
        let mut notes: Vec<String> = Vec::new();
        let mut note = concat_num("kept ", rows_out as u64, " of ");
        crate::render::append_decimal(&mut note, rows_in as u64);
        notes.push(note);
        ctx.record(make_stat("limit", self.detail(), rows_in, rows_out, &start, notes));
        FlowResult::Rows(single_batch(rows))
    }
}

/// Rows at positions `offset .. offset + limit` of `rows`, as far as they
/// exist.
pub open spec fn window(rows: Seq<EntityId>, offset: int, limit: int) -> Seq<EntityId> {
    let start = if offset < rows.len() { offset } else { rows.len() as int };
    let end = if offset + limit < rows.len() { offset + limit } else { rows.len() as int };
    rows.subrange(start, end)
}

/// Skipping `offset` rows and then keeping `limit` keeps exactly the window
/// of `limit` rows starting at position `offset`.
pub proof fn lemma_offset_then_limit(rows: Seq<EntityId>, offset: usize, limit: usize)
    ensures
        limit_rows(offset_rows(rows, offset), limit) == window(rows, offset as int, limit as int),
{
    let skipped = offset_rows(rows, offset);
    assert(limit_rows(skipped, limit) =~= window(rows, offset as int, limit as int));
}

/// An offset operator under a limit operator yields the window of the
/// input's rows; any other input outcome passes through unchanged.
pub proof fn lemma_offset_limit_pipeline<R: PlannerRuntime>(input: Box<Operator>, offset: usize, limit: usize, rt: &R, depth: nat)
    ensures
        ({
            let pipeline = Operator::Limit(LimitOperator {
                input: Box::new(Operator::Offset(OffsetOperator { input, offset })),
                limit,
            });
            match input.spec_execute(rt, depth) {
                Flow::Rows(b) => pipeline.spec_execute(rt, depth) == Flow::Rows(seq![window(b.flatten(), offset as int, limit as int)]),
                other => pipeline.spec_execute(rt, depth) == other,
            }
        }),
{
    let offset_op = Operator::Offset(OffsetOperator { input, offset });
    let pipeline = Operator::Limit(LimitOperator { input: Box::new(offset_op), limit });
    assert(pipeline.spec_execute(rt, depth) == match offset_op.spec_execute(rt, depth) {
        Flow::Rows(b) => Flow::Rows(seq![limit_rows(b.flatten(), limit)]),
        other => other,
    });
    if let Flow::Rows(b) = input.spec_execute(rt, depth) {
        let rows = offset_rows(b.flatten(), offset);
        assert(offset_op.spec_execute(rt, depth) == Flow::Rows(seq![rows]));
        seq![rows].lemma_flatten_one_element();
        lemma_offset_then_limit(b.flatten(), offset, limit);
    } else {
        assert(offset_op.spec_execute(rt, depth) == input.spec_execute(rt, depth));
    }
}

/// A limit never declares more rows than it lets through: the hint is
/// `AtMostOne` or a bound no larger than the limit.
pub proof fn lemma_limit_narrows(input: CardinalityHint, limit: usize)
    ensures
        match limit_cardinality(input, limit) {
            CardinalityHint::AtMostOne => limit >= 1,
            CardinalityHint::Bounded(k) => k <= limit,
            CardinalityHint::Unbounded => false,
        },
{
}

/// The rows left after a positional cursor skip are a suffix of the input.
pub proof fn lemma_cursor_suffix(rows: Seq<EntityId>, after: Option<u64>, mode: CursorMode)
    ensures
        cursor_skipped(rows, after, mode).len() <= rows.len(),
        cursor_skipped(rows, after, mode) == rows.skip(rows.len() - cursor_skipped(rows, after, mode).len()),
{
    match after {
        None => {
            assert(rows.skip(0) =~= rows);
        },
        Some(uid) => {
            lemma_first_position(rows, uid);
            match first_position(rows, uid) {
                Some(p) => {
                    assert(rows.skip(p + 1) =~= rows.skip(rows.len() - (rows.len() - p - 1)));
                },
                None => {
                    if mode == CursorMode::EmptyIfAbsent {
                        assert(rows.skip(rows.len() as int) =~= Seq::<EntityId>::empty());
                    } else {
                        assert(rows.skip(0) =~= rows);
                    }
                },
            }
        },
    }
}

} // verus!
