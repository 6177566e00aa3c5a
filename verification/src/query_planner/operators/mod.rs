//! Batch operator pipeline: rows flow between operators as batches of entity
//! ids; control-flow outcomes travel as [`FlowResult`] values; every operator
//! declares its [`CardinalityHint`] and [`OutputOrdering`].
use vstd::prelude::*;
use crate::query_planner::ir::{opt_cursor_view, predicate_view, EntityId, FieldSegment, OrderKey, SortDirection};
use crate::query_planner::traits::{uids_of, PlannerRuntime};

pub mod aggregate;
pub mod builder;
pub mod control_flow;
pub mod filter;
pub mod pagination;
pub mod recursion;
pub mod sort;
pub mod relation;
pub mod source;

pub use pagination::{CursorMode, CursorSkipOperator, LimitOperator, OffsetOperator};
pub use control_flow::{EmptySource, ReturnOperator, SequenceOperator};
pub use filter::{CompiledFilter, FilterOperator};
pub use recursion::{RecurseGoal, RecurseOperator, RECURSION_LIMIT};
pub use sort::SortOperator;
pub use relation::RelatedIdsSource;
pub use source::{
    FullTypeScan, IntersectionSources, OrderedIndexScan, PredicatePushdownSource, RelationExpandSource,
    TextBM25Scan, UnionSources, UniqueLookupSource, VecSource,
};

verus! {

/// A batch of rows flowing between operators.
#[derive(Debug, Clone)]
pub struct RowBatch(pub Vec<EntityId>);

impl RowBatch {
    pub fn len(&self) -> (n: usize)
        ensures
            n == self.0@.len(),
    {
        self.0.len()
    }

    pub fn is_empty(&self) -> (b: bool)
        ensures
            b == (self.0@.len() == 0),
    {
        self.0.len() == 0
    }
}

impl From<Vec<EntityId>> for RowBatch {
    fn from(rows: Vec<EntityId>) -> (r: Self) {
        RowBatch(rows)
    }
}

impl vstd::std_specs::convert::FromSpecImpl<Vec<EntityId>> for RowBatch {
    open spec fn obeys_from_spec() -> bool {
        true
    }

    open spec fn from_spec(rows: Vec<EntityId>) -> Self {
        RowBatch(rows)
    }
}

/// The rows of each batch, batch by batch.
pub open spec fn batches_view(batches: Seq<RowBatch>) -> Seq<Seq<EntityId>> {
    batches.map_values(|b: RowBatch| b.0@)
}

/// Errors surfaced by operator execution.
#[derive(Debug, Clone)]
pub enum PlannerError {
    /// The pipeline cannot execute this shape; callers fall back.
    Unsupported(String),
    /// Storage or runtime failure during execution.
    Storage(String),
}

impl PlannerError {
    /// Human-readable rendering of the error.
    pub open spec fn message(self) -> Seq<char> {
        match self {
            PlannerError::Unsupported(m) => "planner unsupported: "@ + m@,
            PlannerError::Storage(m) => "storage error: "@ + m@,
        }
    }

    pub fn to_string(&self) -> (s: String)
        ensures
            s@ == self.message(),
    {
        match self {
            PlannerError::Unsupported(m) => {
                let mut s = String::from_str("planner unsupported: ");
                s.append(m.as_str());
                s
            },
            PlannerError::Storage(m) => {
                let mut s = String::from_str("storage error: ");
                s.append(m.as_str());
                s
            },
        }
    }
}

/// Control-flow signal returned by operator execution: normal output, a
/// pipeline short-circuit, a skipped unit of work, or a failure.
#[derive(Debug)]
pub enum FlowResult<T> {
    Rows(T),
    Break,
    Continue,
    Error(PlannerError),
}

impl<T> FlowResult<T> {
    /// Normal output, or `None` for every control-flow signal.
    pub fn into_rows(self) -> (r: Option<T>)
        ensures
            match self {
                FlowResult::Rows(t) => r == Some(t),
                _ => r is None,
            },
    {
        match self {
            FlowResult::Rows(t) => Some(t),
            _ => None,
        }
    }

    pub fn is_error(&self) -> (b: bool)
        ensures
            b == (self is Error),
    {
        match self {
            FlowResult::Error(_) => true,
            _ => false,
        }
    }
}

impl<T> From<Result<T, PlannerError>> for FlowResult<T> {
    fn from(r: Result<T, PlannerError>) -> (f: Self) {
        match r {
            Ok(t) => FlowResult::Rows(t),
            Err(e) => FlowResult::Error(e),
        }
    }
}

impl<T> vstd::std_specs::convert::FromSpecImpl<Result<T, PlannerError>> for FlowResult<T> {
    open spec fn obeys_from_spec() -> bool {
        true
    }

    open spec fn from_spec(r: Result<T, PlannerError>) -> Self {
        match r {
            Ok(t) => FlowResult::Rows(t),
            Err(e) => FlowResult::Error(e),
        }
    }
}

/// Declared row-count hint of an operator's output.
#[derive(Debug, Clone, Copy, PartialEq, Eq, Structural)]
pub enum CardinalityHint {
    AtMostOne,
    Bounded(usize),
    Unbounded,
}

impl CardinalityHint {
    /// One step of [`CardinalityHint::combine`]: the loosest of two bounds,
    /// adding bounded counts (saturating).
    pub open spec fn join(acc: CardinalityHint, h: CardinalityHint) -> CardinalityHint {
        match (acc, h) {
            (CardinalityHint::Unbounded, _) => CardinalityHint::Unbounded,
            (_, CardinalityHint::Unbounded) => CardinalityHint::Unbounded,
            (CardinalityHint::Bounded(a), CardinalityHint::Bounded(b)) =>
                CardinalityHint::Bounded(if a + b > usize::MAX { usize::MAX } else { (a + b) as usize }),
            (CardinalityHint::AtMostOne, b) => b,
            (a, CardinalityHint::AtMostOne) => a,
        }
    }

    /// The combined hint of a sequence of children hints.
    pub open spec fn combined(hints: Seq<CardinalityHint>) -> CardinalityHint {
        hints.fold_left(CardinalityHint::AtMostOne, |acc: CardinalityHint, h: CardinalityHint| CardinalityHint::join(acc, h))
    }

    pub fn is_at_most_one(&self) -> (b: bool)
        ensures
            b == (*self is AtMostOne),
    {
        match self {
            CardinalityHint::AtMostOne => true,
            _ => false,
        }
    }

    fn join_exec(acc: CardinalityHint, h: CardinalityHint) -> (r: CardinalityHint)
        ensures
            r == CardinalityHint::join(acc, h),
    {
        match (acc, h) {
            (CardinalityHint::Unbounded, _) => CardinalityHint::Unbounded,
            (_, CardinalityHint::Unbounded) => CardinalityHint::Unbounded,
            (CardinalityHint::Bounded(a), CardinalityHint::Bounded(b)) => CardinalityHint::Bounded(a.saturating_add(b)),
            (CardinalityHint::AtMostOne, b) => b,
            (a, CardinalityHint::AtMostOne) => a,
        }
    }

    /// Combine hints across the children of one operator: the parent inherits
    /// the loosest bound among its inputs.
    pub fn combine(hints: &[CardinalityHint]) -> (r: CardinalityHint)
        ensures
            r == CardinalityHint::combined(hints@),
    {
        let mut acc = CardinalityHint::AtMostOne;
        let mut i: usize = 0;
        while i < hints.len()
            invariant
                i <= hints@.len(),
                acc == CardinalityHint::combined(hints@.take(i as int)),
            decreases hints@.len() - i,
        {
            proof {
                assert(hints@.take(i as int + 1).drop_last() =~= hints@.take(i as int));
            }
            acc = CardinalityHint::join_exec(acc, hints[i]);
            i = i + 1;
        }
        proof {
            assert(hints@.take(hints@.len() as int) =~= hints@);
        }
        acc
    }

    /// Suggested pre-allocation capacity when collecting the output.
    pub fn suggested_capacity(&self) -> (r: Option<usize>)
        ensures
            r == match *self {
                CardinalityHint::AtMostOne => Some(1usize),
                CardinalityHint::Bounded(n) => Some(n),
                CardinalityHint::Unbounded => None::<usize>,
            },
    {
        match self {
            CardinalityHint::AtMostOne => Some(1),
            CardinalityHint::Bounded(n) => Some(*n),
            CardinalityHint::Unbounded => None,
        }
    }
}

/// Sum of the bounds of the `Bounded` hints.
pub open spec fn bound_sum(hints: Seq<CardinalityHint>) -> int
    decreases hints.len(),
{
    if hints.len() == 0 {
        0
    } else {
        bound_sum(hints.drop_last()) + match hints.last() {
            CardinalityHint::Bounded(n) => n as int,
            _ => 0int,
        }
    }
}

/// Combining children hints yields the loosest bound: `Unbounded` as soon as
/// one child is unbounded; `AtMostOne` when every child is `AtMostOne` (or
/// there is none); otherwise the sum of the children's bounds, saturated at
/// `usize::MAX` (an `AtMostOne` child adds nothing).
pub proof fn lemma_combine_loosest(hints: Seq<CardinalityHint>)
    ensures
        CardinalityHint::combined(hints) == if exists|i: int| 0 <= i < hints.len() && hints[i] is Unbounded {
            CardinalityHint::Unbounded
        } else if forall|i: int| 0 <= i < hints.len() ==> hints[i] is AtMostOne {
            CardinalityHint::AtMostOne
        } else {
            CardinalityHint::Bounded(if bound_sum(hints) > usize::MAX { usize::MAX } else { bound_sum(hints) as usize })
        },
        bound_sum(hints) >= 0,
        (forall|i: int| 0 <= i < hints.len() ==> hints[i] is AtMostOne) ==> bound_sum(hints) == 0,
    decreases hints.len(),
{
    if hints.len() > 0 {
        let init = hints.drop_last();
        lemma_combine_loosest(init);
        let h = hints.last();
        let k = hints.len() - 1;
        assert(h == hints[k]);
        assert(CardinalityHint::combined(hints) == CardinalityHint::join(CardinalityHint::combined(init), h));
        assert forall|i: int| 0 <= i < init.len() implies init[i] == hints[i] by {}
        let init_unb = exists|i: int| 0 <= i < init.len() && init[i] is Unbounded;
        let init_one = forall|i: int| 0 <= i < init.len() ==> init[i] is AtMostOne;
        let all_unb = exists|i: int| 0 <= i < hints.len() && hints[i] is Unbounded;
        let all_one = forall|i: int| 0 <= i < hints.len() ==> hints[i] is AtMostOne;
        if init_unb {
            let i = choose|i: int| 0 <= i < init.len() && init[i] is Unbounded;
            assert(hints[i] is Unbounded);
            assert(all_unb);
        } else if h is Unbounded {
            assert(all_unb);
        } else {
            assert(!all_unb) by {
                if all_unb {
                    let i = choose|i: int| 0 <= i < hints.len() && hints[i] is Unbounded;
                    if i < init.len() {
                        assert(init[i] is Unbounded);
                    }
                }
            }
            if !init_one {
                let j = choose|j: int| 0 <= j < init.len() && !(init[j] is AtMostOne);
                assert(!(hints[j] is AtMostOne));
                assert(!all_one);
            } else if h is AtMostOne {
                assert(all_one);
            } else {
                assert(!all_one);
            }
        }
    }
}

/// The declared hint of a union never depends on the order of two children.
pub proof fn lemma_join_commutes(a: CardinalityHint, b: CardinalityHint)
    ensures
        CardinalityHint::join(a, b) == CardinalityHint::join(b, a),
{
}

/// Declared output ordering of an operator.
#[derive(Debug, Clone)]
pub enum OutputOrdering {
    Unordered,
    Sorted { field: String, direction: SortDirection },
}

impl Default for OutputOrdering {
    fn default() -> (r: Self)
        ensures
            r is Unordered,
    {
        OutputOrdering::Unordered
    }
}

impl OutputOrdering {
    /// The ordering satisfies `key`: it sorts by the key path's first field
    /// segment in the key's direction.
    pub open spec fn covers(self, key: OrderKey) -> bool {
        match self {
            OutputOrdering::Sorted { field, direction } =>
                key.path.segments@.len() > 0
                && (key.path.segments@[0] matches FieldSegment::Field(name) && name@ == field@)
                && direction == key.direction,
            OutputOrdering::Unordered => false,
        }
    }

    /// True when this declared ordering already satisfies the requested key,
    /// enabling downstream sort elimination.
    pub fn satisfies(&self, key: &OrderKey) -> (b: bool)
        ensures
            b == self.covers(*key),
    {
        match self {
            OutputOrdering::Sorted { field, direction } => {
                if key.path.segments.len() == 0 {
                    return false;
                }
                let first_matches = match &key.path.segments[0] {
                    FieldSegment::Field(name) => *name == *field,
                    FieldSegment::Index(_) => false,
                };
                first_matches && *direction == key.direction
            },
            OutputOrdering::Unordered => false,
        }
    }

    /// Satisfies the leading key; an empty key list is trivially satisfied.
    pub fn satisfies_all(&self, keys: &[OrderKey]) -> (b: bool)
        ensures
            b == (keys@.len() == 0 || self.covers(keys@[0])),
    {
        if keys.len() == 0 {
            true
        } else {
            self.satisfies(&keys[0])
        }
    }

    /// A copy equal to `self`.
    pub fn duplicate(&self) -> (r: Self)
        ensures
            r == *self,
    {
        match self {
            OutputOrdering::Unordered => OutputOrdering::Unordered,
            OutputOrdering::Sorted { field, direction } =>
                OutputOrdering::Sorted { field: field.clone(), direction: *direction },
        }
    }
}

/// Statistics captured per operator invocation for explain output.
#[derive(Debug, Clone)]
pub struct OperatorStat {
    pub kind: String,
    pub detail: String,
    pub rows_in: usize,
    pub rows_out: usize,
    pub elapsed_us: u64,
    pub notes: Vec<String>,
}

impl Default for OperatorStat {
    fn default() -> (r: Self)
        ensures
            r.kind@ == Seq::<char>::empty(),
            r.detail@ == Seq::<char>::empty(),
            r.rows_in == 0,
            r.rows_out == 0,
            r.elapsed_us == 0,
            r.notes@ == Seq::<String>::empty(),
    {
        OperatorStat {
            kind: String::new(),
            detail: String::new(),
            rows_in: 0,
            rows_out: 0,
            elapsed_us: 0,
            notes: Vec::new(),
        }
    }
}

/// Collects per-operator execution statistics when enabled.
#[derive(Debug)]
pub struct ExplainCapture {
    enabled: bool,
    stats: Vec<OperatorStat>,
}

impl View for ExplainCapture {
    /// Whether capturing is on, and the statistics recorded so far.
    type V = (bool, Seq<OperatorStat>);

    closed spec fn view(&self) -> (bool, Seq<OperatorStat>) {
        (self.enabled, self.stats@)
    }
}

impl Default for ExplainCapture {
    fn default() -> (r: Self)
        ensures
            r@ == (false, Seq::<OperatorStat>::empty()),
    {
        ExplainCapture::new(false)
    }
}

impl ExplainCapture {
    pub fn new(enabled: bool) -> (r: Self)
        ensures
            r@ == (enabled, Seq::<OperatorStat>::empty()),
    {
        ExplainCapture { enabled, stats: Vec::new() }
    }

    pub fn is_enabled(&self) -> (b: bool)
        ensures
            b == self@.0,
    {
        self.enabled
    }

    /// Appends `stat` when capturing is enabled; otherwise nothing changes.
    pub fn record(&mut self, stat: OperatorStat)
        ensures
            final(self)@ == if old(self)@.0 { (old(self)@.0, old(self)@.1.push(stat)) } else { old(self)@ },
    {
        if self.enabled {
            self.stats.push(stat);
        }
    }

    pub fn stats(&self) -> (s: &[OperatorStat])
        ensures
            s@ == self@.1,
    {
        self.stats.as_slice()
    }

    /// Hands out the recorded statistics, leaving none behind.
    pub fn take_stats(&mut self) -> (s: Vec<OperatorStat>)
        ensures
            s@ == old(self)@.1,
            final(self)@ == (old(self)@.0, Seq::<OperatorStat>::empty()),
    {
        let mut taken = Vec::new();
        std::mem::swap(&mut taken, &mut self.stats);
        taken
    }
}

/// Per-execution context threaded through the operator tree: the storage
/// runtime, the target database, the explain capture, and a nesting-depth
/// guard against runaway recursion.
pub struct ExecContext<'a, R> {
    pub runtime: &'a R,
    pub db_name: &'a str,
    pub explain: ExplainCapture,
    depth: usize,
}

/// `after` is `before` with only explain statistics appended: same runtime,
/// database, depth and capture switch.
pub open spec fn context_extends<'a, R: PlannerRuntime>(before: ExecContext<'a, R>, after: ExecContext<'a, R>) -> bool {
    &&& after.spec_runtime() == before.spec_runtime()
    &&& after.spec_db_name() == before.spec_db_name()
    &&& after.spec_depth() == before.spec_depth()
    &&& after.spec_explain().0 == before.spec_explain().0
    &&& before.spec_explain().1.is_prefix_of(after.spec_explain().1)
    &&& !before.spec_explain().0 ==> after.spec_explain().1 == before.spec_explain().1
}

/// Nesting depth after entering a scope at depth `d`: one deeper, unless
/// the budget [`MAX_DEPTH`] is exhausted.
pub open spec fn depth_after_enter(d: nat) -> nat {
    if d < MAX_DEPTH { d + 1 } else { d }
}

/// Nesting depth after leaving a scope at depth `d` (never below 0).
pub open spec fn depth_after_exit(d: nat) -> nat {
    if d == 0 { 0 } else { (d - 1) as nat }
}

/// Leaving a scope undoes a successful entry, and entering never takes the
/// depth past [`MAX_DEPTH`].
pub proof fn lemma_exit_undoes_enter(d: nat)
    ensures
        d < MAX_DEPTH ==> depth_after_exit(depth_after_enter(d)) == d,
        d <= MAX_DEPTH ==> depth_after_enter(d) <= MAX_DEPTH,
{
}

/// Largest nesting depth [`ExecContext::enter_nested`] admits.
pub const MAX_DEPTH: usize = 64;

impl<'a, R: PlannerRuntime> ExecContext<'a, R> {
    pub const MAX_DEPTH: usize = 64;

    /// Current nesting depth.
    pub closed spec fn spec_depth(&self) -> nat {
        self.depth as nat
    }

    /// The storage runtime reads go through.
    pub closed spec fn spec_runtime(&self) -> &'a R {
        self.runtime
    }

    /// The target database name.
    pub closed spec fn spec_db_name(&self) -> &'a str {
        self.db_name
    }

    /// The explain capture's state.
    pub closed spec fn spec_explain(&self) -> (bool, Seq<OperatorStat>) {
        self.explain@
    }

    /// A context at depth 0 with explain capture off. Nothing here reads the
    /// environment: a caller that honours a debug switch hands it to
    /// [`ExecContext::with_explain`] instead.
    pub fn new(runtime: &'a R, db_name: &'a str) -> (r: Self)
        ensures
            r.spec_runtime() == runtime,
            r.spec_db_name() == db_name,
            r.spec_explain() == (false, Seq::<OperatorStat>::empty()),
            r.spec_depth() == 0,
    {
        ExecContext { runtime, db_name, explain: ExplainCapture::new(false), depth: 0 }
    }

    /// A context at depth 0 whose explain capture is `enabled`.
    pub fn with_explain(runtime: &'a R, db_name: &'a str, enabled: bool) -> (r: Self)
        ensures
            r.spec_runtime() == runtime,
            r.spec_db_name() == db_name,
            r.spec_explain() == (enabled, Seq::<OperatorStat>::empty()),
            r.spec_depth() == 0,
    {
        ExecContext { runtime, db_name, explain: ExplainCapture::new(enabled), depth: 0 }
    }

    /// The runtime reads go through.
    pub fn runtime(&self) -> (r: &'a R)
        ensures
            r == self.spec_runtime(),
    {
        self.runtime
    }

    /// Appends `stat` to the explain capture (when it is enabled).
    pub fn record(&mut self, stat: OperatorStat)
        ensures
            context_extends(*old(self), *final(self)),
            final(self).spec_explain() == if old(self).spec_explain().0 {
                (true, old(self).spec_explain().1.push(stat))
            } else {
                old(self).spec_explain()
            },
    {
        self.explain.record(stat);
    }

    pub fn depth(&self) -> (d: usize)
        ensures
            d == self.spec_depth(),
    {
        self.depth
    }

    /// Enter a nested scope; false (and no change) once the depth budget
    /// [`MAX_DEPTH`] is exhausted.
    pub fn enter_nested(&mut self) -> (entered: bool)
        ensures
            entered == (old(self).spec_depth() < MAX_DEPTH),
            final(self).spec_depth() == depth_after_enter(old(self).spec_depth()),
            final(self).spec_runtime() == old(self).spec_runtime(),
            final(self).spec_db_name() == old(self).spec_db_name(),
            final(self).spec_explain() == old(self).spec_explain(),
    {
        if self.depth >= MAX_DEPTH {
            return false;
        }
        self.depth = self.depth + 1;
        true
    }

    /// Leave a nested scope (never below depth 0).
    pub fn exit_nested(&mut self)
        ensures
            final(self).spec_depth() == depth_after_exit(old(self).spec_depth()),
            final(self).spec_runtime() == old(self).spec_runtime(),
            final(self).spec_db_name() == old(self).spec_db_name(),
            final(self).spec_explain() == old(self).spec_explain(),
    {
        self.depth = self.depth.saturating_sub(1);
    }
}

/// Operator kinds, used for explain labels.
#[derive(Debug, Clone, Copy, PartialEq, Eq, Structural)]
pub enum OperatorKind {
    Scan,
    Filter,
    Sort,
    Limit,
    Project,
    Fetch,
    Union,
    Aggregate,
    Explain,
    Control,
    Traverse,
}

impl OperatorKind {
    pub open spec fn name(self) -> Seq<char> {
        match self {
            OperatorKind::Scan => "scan"@,
            OperatorKind::Filter => "filter"@,
            OperatorKind::Sort => "sort"@,
            OperatorKind::Limit => "limit"@,
            OperatorKind::Project => "project"@,
            OperatorKind::Fetch => "fetch"@,
            OperatorKind::Union => "union"@,
            OperatorKind::Aggregate => "aggregate"@,
            OperatorKind::Explain => "explain"@,
            OperatorKind::Control => "control"@,
            OperatorKind::Traverse => "traverse"@,
        }
    }

    pub fn as_str(&self) -> (s: &'static str)
        ensures
            s@ == self.name(),
    {
        match self {
            OperatorKind::Scan => "scan",
            OperatorKind::Filter => "filter",
            OperatorKind::Sort => "sort",
            OperatorKind::Limit => "limit",
            OperatorKind::Project => "project",
            OperatorKind::Fetch => "fetch",
            OperatorKind::Union => "union",
            OperatorKind::Aggregate => "aggregate",
            OperatorKind::Explain => "explain",
            OperatorKind::Control => "control",
            OperatorKind::Traverse => "traverse",
        }
    }
}


/// What a failed execution reports: the error kind and its message.
pub enum ErrorView {
    Unsupported(Seq<char>),
    Storage(Seq<char>),
}

impl PlannerError {
    pub open spec fn view_error(self) -> ErrorView {
        match self {
            PlannerError::Unsupported(m) => ErrorView::Unsupported(m@),
            PlannerError::Storage(m) => ErrorView::Storage(m@),
        }
    }
}

/// The observable outcome of executing an operator: its batches (each a
/// sequence of ids), or a control-flow signal, or a failure.
pub enum Flow {
    Rows(Seq<Seq<EntityId>>),
    Break,
    Continue,
    Failed(ErrorView),
}

/// The outcome an executed [`FlowResult`] stands for.
pub open spec fn flow_of(f: FlowResult<Vec<RowBatch>>) -> Flow {
    match f {
        FlowResult::Rows(b) => Flow::Rows(batches_view(b@)),
        FlowResult::Break => Flow::Break,
        FlowResult::Continue => Flow::Continue,
        FlowResult::Error(e) => Flow::Failed(e.view_error()),
    }
}

/// Outcome of running children one after another: the batches of every child
/// that produced rows (children that signalled `Continue` are skipped), or the
/// first `Break` / failure, which stops the run.
pub enum Gathered {
    Rows(Seq<Seq<Seq<EntityId>>>),
    Break,
    Failed(ErrorView),
}

/// Folds one more child outcome into a run.
pub open spec fn gather_step(acc: Gathered, next: Flow) -> Gathered {
    match acc {
        Gathered::Rows(payloads) => match next {
            Flow::Rows(b) => Gathered::Rows(payloads.push(b)),
            Flow::Continue => Gathered::Rows(payloads),
            Flow::Break => Gathered::Break,
            Flow::Failed(e) => Gathered::Failed(e),
        },
        other => other,
    }
}

#[verifier::external_type_specification]
#[verifier::external_body]
pub struct ExInstant(std::time::Instant);

/// The current instant (`Instant::now`); nothing is known of its value.
#[verifier::external_body]
pub(crate) fn clock_now() -> std::time::Instant {
    std::time::Instant::now()
}

/// Time passed since `start` (`Instant::elapsed`); nothing is known of it.
#[verifier::external_body]
pub(crate) fn clock_elapsed(start: &std::time::Instant) -> std::time::Duration {
    start.elapsed()
}

/// Whole microseconds of `d` (`Duration::as_micros`); nothing is stated of it.
#[verifier::external_body]
pub(crate) fn duration_micros(d: &std::time::Duration) -> u128 {
    d.as_micros()
}

/// Microseconds since `start`, truncated to 64 bits.
pub(crate) fn elapsed_micros(start: &std::time::Instant) -> u64 {
    let d = clock_elapsed(start);
    let us = duration_micros(&d);
    us as u64
}

/// Builds one explain statistic.
pub(crate) fn make_stat(kind: &str, detail: String, rows_in: usize, rows_out: usize, start: &std::time::Instant, notes: Vec<String>) -> (s: OperatorStat)
    ensures
        s.kind@ == kind@,
        s.detail == detail,
        s.rows_in == rows_in,
        s.rows_out == rows_out,
        s.notes == notes,
{
    OperatorStat {
        kind: String::from_str(kind),
        detail,
        rows_in,
        rows_out,
        elapsed_us: elapsed_micros(start),
        notes,
    }
}

/// An executable operator tree.
pub enum Operator {
    Values(VecSource),
    CursorSkip(CursorSkipOperator),
    Offset(OffsetOperator),
    Limit(LimitOperator),
    Filter(FilterOperator),
    Sort(SortOperator),
    Union(UnionSources),
    Intersection(IntersectionSources),
    Sequence(SequenceOperator),
    Return(ReturnOperator),
    RelatedIds(RelatedIdsSource),
    RelationExpand(RelationExpandSource),
    TextSearch(TextBM25Scan),
    Recurse(RecurseOperator),
    FullScan(FullTypeScan),
    UniqueLookup(UniqueLookupSource),
    Pushdown(PredicatePushdownSource),
    OrderedScan(OrderedIndexScan),
}

impl Operator {
    /// What executing this operator yields against `rt` at nesting `depth`.
    pub open spec fn spec_execute<R: PlannerRuntime>(self, rt: &R, depth: nat) -> Flow
        decreases self, 0int,
    {
        match self {
            Operator::Values(v) => Flow::Rows(seq![v.ids@]),
            Operator::CursorSkip(c) => match c.input.spec_execute(rt, depth) {
                Flow::Rows(b) => Flow::Rows(seq![pagination::cursor_skipped(b.flatten(), c.after, c.mode)]),
                other => other,
            },
            Operator::Offset(o) => match o.input.spec_execute(rt, depth) {
                Flow::Rows(b) => Flow::Rows(seq![pagination::offset_rows(b.flatten(), o.offset)]),
                other => other,
            },
            Operator::Limit(l) => match l.input.spec_execute(rt, depth) {
                Flow::Rows(b) => Flow::Rows(seq![pagination::limit_rows(b.flatten(), l.limit)]),
                other => other,
            },
            Operator::Filter(f) => match f.input.spec_execute(rt, depth) {
                Flow::Rows(b) => Flow::Rows(filter::filtered_batches(rt, b, f.filter@)),
                other => other,
            },
            Operator::Sort(x) => match x.input.spec_execute(rt, depth) {
                Flow::Rows(b) => if x.is_eliminated() { Flow::Rows(b) } else { Flow::Rows(seq![sort::sorted_rows(rt, b.flatten(), x.keys@)]) },
                other => other,
            },
            Operator::Union(u) => match Self::spec_gather(u.sources@, u.sources@.len() as int, rt, depth) {
                Gathered::Rows(p) => Flow::Rows(seq![source::union_ids(p.flatten().flatten())]),
                Gathered::Break => Flow::Break,
                Gathered::Failed(e) => Flow::Failed(e),
            },
            Operator::Intersection(x) => match Self::spec_gather(x.sources@, x.sources@.len() as int, rt, depth) {
                Gathered::Rows(p) => Flow::Rows(seq![source::intersection_ids(p)]),
                Gathered::Break => Flow::Break,
                Gathered::Failed(e) => Flow::Failed(e),
            },
            Operator::Sequence(q) => match Self::spec_gather(q.steps@, q.steps@.len() as int, rt, depth) {
                Gathered::Rows(p) => Flow::Rows(p.flatten()),
                Gathered::Break => Flow::Break,
                Gathered::Failed(e) => Flow::Failed(e),
            },
            Operator::Return(t) => match t.inner.spec_execute(rt, depth) {
                Flow::Rows(_) => Flow::Break,
                other => other,
            },
            Operator::RelatedIds(r) => read_flow(rt.spec_related_ids(r.parent.uid, r.field@)),
            Operator::RelationExpand(x) => if depth >= MAX_DEPTH {
                Flow::Failed(ErrorView::Unsupported(source::nesting_message()))
            } else {
                match x.input.spec_execute(rt, depth + 1) {
                    Flow::Failed(e) => Flow::Failed(e),
                    child => {
                        let cids = match child {
                            Flow::Rows(b) => uids_of(b.flatten()),
                            _ => Seq::empty(),
                        };
                        match rt.spec_reverse_related_ids(x.target_type@, x.inverse_field@, cids) {
                            Ok(list) => Flow::Rows(seq![source::union_ids(list)]),
                            Err(e) => Flow::Failed(ErrorView::Storage(e)),
                        }
                    },
                }
            },
            Operator::TextSearch(t) => read_flow(rt.spec_text_search(t.type_label@, t.field@, t.op, t.query@, t.limit)),
            Operator::Recurse(r) => recursion::recurse_flow(rt, r, r.input.spec_execute(rt, depth)),
            Operator::FullScan(f) => read_flow(rt.spec_scan_type(f.type_label@, opt_cursor_view(f.cursor), f.limit)),
            Operator::UniqueLookup(u) => match rt.spec_lookup_unique(u.type_label@, u.field@, u.value@) {
                Ok(Some(id)) => Flow::Rows(seq![seq![id]]),
                Ok(None) => Flow::Rows(seq![Seq::empty()]),
                Err(e) => Flow::Failed(ErrorView::Storage(e)),
            },
            Operator::Pushdown(p) => match rt.spec_candidate_ids(p.type_label@, predicate_view(p.predicate)) {
                Ok(Some(ids)) => Flow::Rows(seq![source::sorted_by_uid(ids)]),
                Ok(None) => Flow::Failed(ErrorView::Unsupported(source::unpushable_message(p.predicate))),
                Err(e) => Flow::Failed(ErrorView::Storage(e)),
            },
            Operator::OrderedScan(o) => match rt.spec_ordered_scan_with_fallback(o.type_label@, o.field@, o.direction, opt_cursor_view(o.cursor), o.limit) {
                Ok(Some(ids)) => Flow::Rows(seq![ids]),
                Ok(None) => Flow::Failed(ErrorView::Unsupported(source::no_index_message(o.type_label@, o.field@))),
                Err(e) => Flow::Failed(ErrorView::Storage(e)),
            },
        }
    }

    /// Outcome of running the first `n` children in order.
    pub open spec fn spec_gather<R: PlannerRuntime>(children: Seq<Box<Operator>>, n: int, rt: &R, depth: nat) -> Gathered
        decreases children, n,
    {
        if n <= 0 || n > children.len() {
            Gathered::Rows(Seq::empty())
        } else {
            gather_step(Self::spec_gather(children, n - 1, rt, depth), children[n - 1].spec_execute(rt, depth))
        }
    }

    /// Declared cardinalities of the first `n` children.
    pub open spec fn spec_hints(children: Seq<Box<Operator>>, n: int) -> Seq<CardinalityHint>
        decreases children, n,
    {
        if n <= 0 || n > children.len() {
            Seq::empty()
        } else {
            Self::spec_hints(children, n - 1).push(children[n - 1].spec_cardinality())
        }
    }

    /// Once a run stops at `Break` or a failure, later children change nothing.
    pub proof fn lemma_gather_stops<R: PlannerRuntime>(children: Seq<Box<Operator>>, k: int, n: int, rt: &R, depth: nat)
        requires
            0 <= k <= n <= children.len(),
            !(Self::spec_gather(children, k, rt, depth) is Rows),
        ensures
            Self::spec_gather(children, n, rt, depth) == Self::spec_gather(children, k, rt, depth),
        decreases n - k,
    {
        if n > k {
            Self::lemma_gather_stops(children, k, n - 1, rt, depth);
        }
    }

    /// The explain detail line.
    pub open spec fn spec_detail(self) -> Seq<char>
        decreases self, 0int,
    {
        match self {
            Operator::Values(v) => v.describe(),
            Operator::CursorSkip(c) => c.describe(),
            Operator::Offset(o) => o.describe(),
            Operator::Limit(l) => l.describe(),
            Operator::Filter(f) => f.describe(),
            Operator::Sort(x) => x.describe(),
            Operator::Union(u) => u.describe(),
            Operator::Intersection(x) => x.describe(),
            Operator::Sequence(q) => q.describe(),
            Operator::Return(t) => "return "@ + t.inner.spec_detail(),
            Operator::RelatedIds(r) => r.describe(),
            Operator::RelationExpand(x) => x.describe(),
            Operator::TextSearch(t) => t.describe(),
            Operator::Recurse(r) => r.describe(),
            Operator::FullScan(f) => f.describe(),
            Operator::UniqueLookup(u) => u.describe(),
            Operator::Pushdown(p) => p.describe(),
            Operator::OrderedScan(o) => o.describe(),
        }
    }

    /// The inputs this operator pulls from, in order.
    pub open spec fn spec_children(self) -> Seq<Operator> {
        match self {
            Operator::CursorSkip(c) => seq![*c.input],
            Operator::Offset(o) => seq![*o.input],
            Operator::Limit(l) => seq![*l.input],
            Operator::Filter(f) => seq![*f.input],
            Operator::Sort(x) => seq![*x.input],
            Operator::Union(u) => u.sources@.map_values(|b: Box<Operator>| *b),
            Operator::Intersection(x) => x.sources@.map_values(|b: Box<Operator>| *b),
            Operator::Sequence(q) => q.steps@.map_values(|b: Box<Operator>| *b),
            Operator::Return(t) => seq![*t.inner],
            Operator::RelationExpand(x) => seq![*x.input],
            Operator::Recurse(r) => seq![*r.input],
            _ => Seq::empty(),
        }
    }

    /// Declared cardinality.
    pub open spec fn spec_cardinality(self) -> CardinalityHint
        decreases self, 0int,
    {
        match self {
            Operator::Values(v) => CardinalityHint::Bounded(v.ids@.len() as usize),
            Operator::CursorSkip(c) => c.input.spec_cardinality(),
            Operator::Offset(o) => o.input.spec_cardinality(),
            Operator::Limit(l) => pagination::limit_cardinality(l.input.spec_cardinality(), l.limit),
            Operator::Filter(f) => f.input.spec_cardinality(),
            Operator::Sort(x) => x.input.spec_cardinality(),
            Operator::Union(u) => CardinalityHint::combined(Self::spec_hints(u.sources@, u.sources@.len() as int)),
            Operator::Intersection(x) => source::tightest_of(Self::spec_hints(x.sources@, x.sources@.len() as int)),
            Operator::Sequence(q) => if q.steps@.len() == 0 { CardinalityHint::Unbounded } else { q.steps@[0].spec_cardinality() },
            Operator::Return(t) => t.inner.spec_cardinality(),
            Operator::TextSearch(t) => match t.limit {
                Some(k) => CardinalityHint::Bounded(k),
                None => CardinalityHint::Unbounded,
            },
            Operator::UniqueLookup(_) => CardinalityHint::AtMostOne,
            _ => CardinalityHint::Unbounded,
        }
    }

    /// Declared output ordering.
    pub open spec fn spec_ordering(self) -> OutputOrdering
        decreases self, 0int,
    {
        match self {
            Operator::Values(v) => v.ordering,
            Operator::CursorSkip(c) => c.input.spec_ordering(),
            Operator::Offset(o) => o.input.spec_ordering(),
            Operator::Limit(l) => l.input.spec_ordering(),
            Operator::Filter(f) => f.input.spec_ordering(),
            Operator::Sort(x) => x.declared_ordering(),
            Operator::OrderedScan(o) => OutputOrdering::Sorted { field: o.field, direction: o.direction },
            _ => OutputOrdering::Unordered,
        }
    }

    /// The kind of node this operator is.
    pub open spec fn spec_kind(self) -> OperatorKind {
        match self {
            Operator::Values(_) => OperatorKind::Scan,
            Operator::CursorSkip(_) => OperatorKind::Limit,
            Operator::Offset(_) => OperatorKind::Limit,
            Operator::Limit(_) => OperatorKind::Limit,
            Operator::Filter(_) => OperatorKind::Filter,
            Operator::Sort(_) => OperatorKind::Sort,
            Operator::Union(_) => OperatorKind::Union,
            Operator::Intersection(_) => OperatorKind::Union,
            Operator::Sequence(_) => OperatorKind::Control,
            Operator::Return(_) => OperatorKind::Control,
            Operator::RelatedIds(_) => OperatorKind::Scan,
            Operator::RelationExpand(_) => OperatorKind::Scan,
            Operator::TextSearch(_) => OperatorKind::Scan,
            Operator::Recurse(_) => OperatorKind::Traverse,
            Operator::FullScan(_) => OperatorKind::Scan,
            Operator::UniqueLookup(_) => OperatorKind::Scan,
            Operator::Pushdown(_) => OperatorKind::Scan,
            Operator::OrderedScan(_) => OperatorKind::Scan,
        }
    }

    pub fn kind(&self) -> (k: OperatorKind)
        ensures
            k == self.spec_kind(),
    {
        match self {
            Operator::Values(_) => OperatorKind::Scan,
            Operator::CursorSkip(_) => OperatorKind::Limit,
            Operator::Offset(_) => OperatorKind::Limit,
            Operator::Limit(_) => OperatorKind::Limit,
            Operator::Filter(_) => OperatorKind::Filter,
            Operator::Sort(_) => OperatorKind::Sort,
            Operator::Union(_) => OperatorKind::Union,
            Operator::Intersection(_) => OperatorKind::Union,
            Operator::Sequence(_) => OperatorKind::Control,
            Operator::Return(_) => OperatorKind::Control,
            Operator::RelatedIds(_) => OperatorKind::Scan,
            Operator::RelationExpand(_) => OperatorKind::Scan,
            Operator::TextSearch(_) => OperatorKind::Scan,
            Operator::Recurse(_) => OperatorKind::Traverse,
            Operator::FullScan(_) => OperatorKind::Scan,
            Operator::UniqueLookup(_) => OperatorKind::Scan,
            Operator::Pushdown(_) => OperatorKind::Scan,
            Operator::OrderedScan(_) => OperatorKind::Scan,
        }
    }

    pub fn detail(&self) -> (s: String)
        ensures
            s@ == self.spec_detail(),
        decreases self,
    {
        match self {
            Operator::Values(v) => v.detail(),
            Operator::CursorSkip(c) => c.detail(),
            Operator::Offset(o) => o.detail(),
            Operator::Limit(l) => l.detail(),
            Operator::Filter(f) => f.detail(),
            Operator::Sort(x) => x.detail(),
            Operator::Union(u) => u.detail(),
            Operator::Intersection(x) => x.detail(),
            Operator::Sequence(q) => q.detail(),
            Operator::Return(t) => t.detail(),
            Operator::RelatedIds(r) => r.detail(),
            Operator::RelationExpand(x) => x.detail(),
            Operator::TextSearch(t) => t.detail(),
            Operator::Recurse(r) => r.detail(),
            Operator::FullScan(f) => f.detail(),
            Operator::UniqueLookup(u) => u.detail(),
            Operator::Pushdown(p) => p.detail(),
            Operator::OrderedScan(o) => o.detail(),
        }
    }

    pub fn children(&self) -> (c: Vec<&Operator>)
        ensures
            c@.map_values(|r: &Operator| *r) == self.spec_children(),
    {
        let mut c: Vec<&Operator> = Vec::new();
        match self {
            Operator::CursorSkip(op) => c.push(&*op.input),
            Operator::Offset(op) => c.push(&*op.input),
            Operator::Limit(op) => c.push(&*op.input),
            Operator::Filter(op) => c.push(&*op.input),
            Operator::Sort(op) => c.push(&*op.input),
            Operator::Union(op) => return boxed_refs(&op.sources),
            Operator::Intersection(op) => return boxed_refs(&op.sources),
            Operator::Sequence(op) => return boxed_refs(&op.steps),
            Operator::Return(op) => c.push(&*op.inner),
            Operator::RelationExpand(op) => c.push(&*op.input),
            Operator::Recurse(op) => c.push(&*op.input),
            _ => {},
        }
        proof {
            assert(c@.map_values(|r: &Operator| *r) =~= self.spec_children());
        }
        c
    }

    pub fn cardinality(&self) -> (c: CardinalityHint)
        ensures
            c == self.spec_cardinality(),
        decreases self,
    {
        match self {
            Operator::Values(v) => v.cardinality(),
            Operator::CursorSkip(c) => c.cardinality(),
            Operator::Offset(o) => o.cardinality(),
            Operator::Limit(l) => l.cardinality(),
            Operator::Filter(f) => f.cardinality(),
            Operator::Sort(x) => x.cardinality(),
            Operator::Union(u) => u.cardinality(),
            Operator::Intersection(x) => x.cardinality(),
            Operator::Sequence(q) => q.cardinality(),
            Operator::Return(t) => t.cardinality(),
            Operator::RelatedIds(r) => r.cardinality(),
            Operator::RelationExpand(x) => x.cardinality(),
            Operator::TextSearch(t) => t.cardinality(),
            Operator::Recurse(r) => r.cardinality(),
            Operator::FullScan(_) => CardinalityHint::Unbounded,
            Operator::UniqueLookup(_) => CardinalityHint::AtMostOne,
            Operator::Pushdown(_) => CardinalityHint::Unbounded,
            Operator::OrderedScan(_) => CardinalityHint::Unbounded,
        }
    }

    pub fn output_ordering(&self) -> (o: OutputOrdering)
        ensures
            o == self.spec_ordering(),
        decreases self,
    {
        match self {
            Operator::Values(v) => v.output_ordering(),
            Operator::CursorSkip(c) => c.output_ordering(),
            Operator::Offset(o) => o.output_ordering(),
            Operator::Limit(l) => l.output_ordering(),
            Operator::Filter(f) => f.output_ordering(),
            Operator::Sort(x) => x.output_ordering(),
            Operator::OrderedScan(o) => o.output_ordering(),
            _ => OutputOrdering::Unordered,
        }
    }

    /// Executes the operator tree, pulling batches from children.
    pub fn execute<R: PlannerRuntime>(&self, ctx: &mut ExecContext<R>) -> (r: FlowResult<Vec<RowBatch>>)
        ensures
            flow_of(r) == self.spec_execute(old(ctx).spec_runtime(), old(ctx).spec_depth()),
            context_extends(*old(ctx), *final(ctx)),
        decreases self,
    {
        match self {
            Operator::Values(v) => v.execute(ctx),
            Operator::CursorSkip(c) => c.execute(ctx),
            Operator::Offset(o) => o.execute(ctx),
            Operator::Limit(l) => l.execute(ctx),
            Operator::Filter(f) => f.execute(ctx),
            Operator::Sort(x) => x.execute(ctx),
            Operator::Union(u) => u.execute(ctx),
            Operator::Intersection(x) => x.execute(ctx),
            Operator::Sequence(q) => q.execute(ctx),
            Operator::Return(t) => t.execute_signal(ctx),
            Operator::RelatedIds(r) => r.execute(ctx),
            Operator::RelationExpand(x) => x.execute(ctx),
            Operator::TextSearch(t) => t.execute(ctx),
            Operator::Recurse(r) => r.execute(ctx),
            Operator::FullScan(f) => f.execute(ctx),
            Operator::UniqueLookup(u) => u.execute(ctx),
            Operator::Pushdown(p) => p.execute(ctx),
            Operator::OrderedScan(o) => o.execute(ctx),
        }
    }
}

/// References to the boxed operators, in order.
fn boxed_refs(ops: &Vec<Box<Operator>>) -> (c: Vec<&Operator>)
    ensures
        c@.map_values(|r: &Operator| *r) == ops@.map_values(|b: Box<Operator>| *b),
{
    let mut c: Vec<&Operator> = Vec::new();
    let mut i: usize = 0;
    while i < ops.len()
        invariant
            i <= ops@.len(),
            c@.map_values(|r: &Operator| *r) == ops@.take(i as int).map_values(|b: Box<Operator>| *b),
        decreases ops@.len() - i,
    {
        let ghost before = c@;
        c.push(&*ops[i]);
        proof {
            assert(c@.map_values(|r: &Operator| *r) =~= before.map_values(|r: &Operator| *r).push(*ops@[i as int]));
            assert(ops@.take(i as int + 1).map_values(|b: Box<Operator>| *b)
                =~= ops@.take(i as int).map_values(|b: Box<Operator>| *b).push(*ops@[i as int]));
        }
        i = i + 1;
    }
    proof {
        assert(ops@.take(ops@.len() as int) =~= ops@);
    }
    c
}

/// The operator interface: declared metadata, the inputs pulled from, and
/// batch execution. Execution only ever appends explain statistics to the
/// context.
pub trait ExecOperator {
    fn kind(&self) -> OperatorKind;

    /// Human-readable detail line for explain output (e.g. the scan source).
    fn detail(&self) -> String;

    fn cardinality(&self) -> CardinalityHint;

    fn output_ordering(&self) -> OutputOrdering;

    fn children(&self) -> Vec<&Operator>;

    /// Executes this operator, producing zero or more row batches.
    fn execute<R: PlannerRuntime>(&self, ctx: &mut ExecContext<R>) -> (r: FlowResult<Vec<RowBatch>>)
        ensures
            context_extends(*old(ctx), *final(ctx)),
    ;
}

impl ExecOperator for Operator {
    fn kind(&self) -> (k: OperatorKind)
        ensures
            k == self.spec_kind(),
    {
        Operator::kind(self)
    }

    fn detail(&self) -> (s: String)
        ensures
            s@ == self.spec_detail(),
    {
        Operator::detail(self)
    }

    fn cardinality(&self) -> (c: CardinalityHint)
        ensures
            c == self.spec_cardinality(),
    {
        Operator::cardinality(self)
    }

    fn output_ordering(&self) -> (o: OutputOrdering)
        ensures
            o == self.spec_ordering(),
    {
        Operator::output_ordering(self)
    }

    fn children(&self) -> (c: Vec<&Operator>)
        ensures
            c@.map_values(|r: &Operator| *r) == self.spec_children(),
    {
        Operator::children(self)
    }

    fn execute<R: PlannerRuntime>(&self, ctx: &mut ExecContext<R>) -> (r: FlowResult<Vec<RowBatch>>)
        ensures
            flow_of(r) == self.spec_execute(old(ctx).spec_runtime(), old(ctx).spec_depth()),
    {
        Operator::execute(self, ctx)
    }
}

/// Number of rows across `batches`.
pub open spec fn rows_total(batches: Seq<RowBatch>) -> nat
    decreases batches.len(),
{
    if batches.len() == 0 {
        0
    } else {
        rows_total(batches.drop_last()) + batches.last().0@.len()
    }
}

/// Number of rows across `batches`, saturating at `usize::MAX`.
pub(crate) fn total_rows(batches: &Vec<RowBatch>) -> (n: usize)
    ensures
        n == if rows_total(batches@) <= usize::MAX { rows_total(batches@) } else { usize::MAX as nat },
{
    let mut n: usize = 0;
    let mut i: usize = 0;
    while i < batches.len()
        invariant
            i <= batches@.len(),
            n == if rows_total(batches@.take(i as int)) <= usize::MAX { rows_total(batches@.take(i as int)) } else { usize::MAX as nat },
        decreases batches@.len() - i,
    {
        proof {
            assert(batches@.take(i as int + 1).drop_last() =~= batches@.take(i as int));
        }
        n = n.saturating_add(batches[i].len());
        i = i + 1;
    }
    proof {
        assert(batches@.take(batches@.len() as int) =~= batches@);
    }
    n
}

/// Rows of a single storage read, or its failure.
pub open spec fn read_flow(r: Result<Seq<EntityId>, Seq<char>>) -> Flow {
    match r {
        Ok(ids) => Flow::Rows(seq![ids]),
        Err(e) => Flow::Failed(ErrorView::Storage(e)),
    }
}

/// One batch holding the result of a storage read, or its failure.
pub fn read_result(r: Result<Vec<EntityId>, String>) -> (f: FlowResult<Vec<RowBatch>>)
    ensures
        flow_of(f) == read_flow(match r {
            Ok(ids) => Ok::<Seq<EntityId>, Seq<char>>(ids@),
            Err(e) => Err::<Seq<EntityId>, Seq<char>>(e@),
        }),
{
    match r {
        Ok(ids) => {
            let mut out: Vec<RowBatch> = Vec::new();
            out.push(RowBatch(ids));
            proof {
                assert(batches_view(out@) =~= seq![out@[0].0@]);
            }
            FlowResult::Rows(out)
        },
        Err(e) => FlowResult::Error(PlannerError::Storage(e)),
    }
}

/// The run outcome an executed child run stands for.
pub open spec fn gathered_of(r: FlowResult<Vec<Vec<RowBatch>>>) -> Gathered {
    match r {
        FlowResult::Rows(p) => Gathered::Rows(p@.map_values(|b: Vec<RowBatch>| batches_view(b@))),
        FlowResult::Break => Gathered::Break,
        FlowResult::Continue => Gathered::Break,
        FlowResult::Error(e) => Gathered::Failed(e.view_error()),
    }
}

/// Executes `children` in order, collecting the batches of each child that
/// produced rows, and stopping at the first `Break` or failure.
pub fn run_children<R: PlannerRuntime>(children: &Vec<Box<Operator>>, ctx: &mut ExecContext<R>) -> (r: FlowResult<Vec<Vec<RowBatch>>>)
    ensures
        gathered_of(r) == Operator::spec_gather(children@, children@.len() as int, old(ctx).spec_runtime(), old(ctx).spec_depth()),
        !(r is Continue),
        context_extends(*old(ctx), *final(ctx)),
    decreases children@,
{
    let ghost rt = ctx.spec_runtime();
    let ghost depth = ctx.spec_depth();
    let mut payloads: Vec<Vec<RowBatch>> = Vec::new();
    proof {
        assert(payloads@.map_values(|b: Vec<RowBatch>| batches_view(b@)) =~= Seq::<Seq<Seq<EntityId>>>::empty());
    }
    let mut i: usize = 0;
    while i < children.len()
        invariant
            i <= children@.len(),
            ctx.spec_runtime() == rt,
            ctx.spec_depth() == depth,
            context_extends(*old(ctx), *ctx),
            Operator::spec_gather(children@, i as int, rt, depth)
                == Gathered::Rows(payloads@.map_values(|b: Vec<RowBatch>| batches_view(b@))),
        decreases children@.len() - i,
    {
        let r = children[i].execute(ctx);
        match r {
            FlowResult::Rows(b) => {
                let ghost before = payloads@;
                payloads.push(b);
                proof {
                    assert(payloads@.map_values(|b: Vec<RowBatch>| batches_view(b@))
                        =~= before.map_values(|b: Vec<RowBatch>| batches_view(b@)).push(batches_view(b@)));
                }
            },
            FlowResult::Continue => {},
            FlowResult::Break => {
                proof {
                    Operator::lemma_gather_stops(children@, i as int + 1, children@.len() as int, rt, depth);
                }
                return FlowResult::Break;
            },
            FlowResult::Error(e) => {
                proof {
                    Operator::lemma_gather_stops(children@, i as int + 1, children@.len() as int, rt, depth);
                }
                return FlowResult::Error(e);
            },
        }
        i = i + 1;
    }
    FlowResult::Rows(payloads)
}

/// Declared cardinalities of `children`, in order.
pub fn children_hints(children: &Vec<Box<Operator>>) -> (hints: Vec<CardinalityHint>)
    ensures
        hints@ == Operator::spec_hints(children@, children@.len() as int),
    decreases children@,
{
    let mut hints: Vec<CardinalityHint> = Vec::new();
    let mut i: usize = 0;
    while i < children.len()
        invariant
            i <= children@.len(),
            hints@ == Operator::spec_hints(children@, i as int),
        decreases children@.len() - i,
    {
        hints.push(children[i].cardinality());
        i = i + 1;
    }
    hints
}

/// All rows of the batches, in order.
pub fn flatten_batches(batches: Vec<RowBatch>) -> (rows: Vec<EntityId>)
    ensures
        rows@ == batches_view(batches@).flatten(),
{
    let mut batches = batches;
    let ghost whole = batches_view(batches@).flatten();
    let mut rows: Vec<EntityId> = Vec::new();
    while batches.len() > 0
        invariant
            rows@ + batches_view(batches@).flatten() == whole,
        decreases batches@.len(),
    {
        let ghost before = batches@;
        let mut b = batches.remove(0);
        proof {
            assert(batches_view(before).drop_first() =~= batches_view(batches@));
            assert(batches_view(before).first() == b.0@);
        }
        rows.append(&mut b.0);
        proof {
            assert(rows@ + batches_view(batches@).flatten() =~= whole);
        }
    }
    proof {
        assert(batches_view(batches@) =~= Seq::<Seq<EntityId>>::empty());
        assert(rows@ =~= whole);
    }
    rows
}

/// Total number of rows across batches.
pub fn count_rows(batches: &Vec<RowBatch>) -> (n: usize)
    requires
        batches_view(batches@).flatten().len() <= usize::MAX,
    ensures
        n == batches_view(batches@).flatten().len(),
{
    let mut n: usize = 0;
    let mut i: usize = 0;
    while i < batches.len()
        invariant
            i <= batches@.len(),
            batches_view(batches@).flatten().len() <= usize::MAX,
            n == batches_view(batches@.take(i as int)).flatten().len(),
        decreases batches@.len() - i,
    {
        proof {
            let bv = batches_view(batches@.take(i as int + 1));
            assert(bv.drop_last() =~= batches_view(batches@.take(i as int)));
            bv.drop_last().lemma_flatten_push(bv.last());
            assert(bv.drop_last().push(bv.last()) =~= bv);
            lemma_flatten_prefix_len(batches_view(batches@), i as int + 1);
            assert(batches_view(batches@).take(i as int + 1) =~= bv);
        }
        n = n + batches[i].0.len();
        i = i + 1;
    }
    proof {
        assert(batches@.take(i as int) =~= batches@);
    }
    n
}

/// Flattening a prefix yields no more elements than flattening the whole.
pub proof fn lemma_flatten_prefix_len<A>(s: Seq<Seq<A>>, k: int)
    requires
        0 <= k <= s.len(),
    ensures
        s.take(k).flatten().len() <= s.flatten().len(),
    decreases s.len(),
{
    if k < s.len() {
        s.drop_last().lemma_flatten_push(s.last());
        assert(s.drop_last().push(s.last()) =~= s);
        assert(s.drop_last().take(k) =~= s.take(k));
        lemma_flatten_prefix_len(s.drop_last(), k);
    } else {
        assert(s.take(k) =~= s);
    }
}

} // verus!
