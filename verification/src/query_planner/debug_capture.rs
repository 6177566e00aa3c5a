//! Bounded history of recent planner pipeline captures.
//!
//! Every planner-driven pipeline execution can be recorded here: the
//! human-readable candidate plan, its machine-readable form, and the
//! per-operator statistics gathered through the explain capture. Only the
//! most recent [`CAPACITY`] captures are kept, oldest first, so a debug
//! endpoint always reflects the latest queries.
use vstd::prelude::*;
use crate::query_planner::operators::OperatorStat;

verus! {

/// Most captures kept at once.
pub const CAPACITY: usize = 100;

/// One recorded planner pipeline execution.
#[derive(Debug, Clone)]
pub struct CapturedPlan {
    /// Wall-clock capture time (unix ms).
    pub captured_at_ms: u64,
    pub db: String,
    /// Pipeline family: `scan`, `count`, or `relation`.
    pub kind: String,
    /// Root type (or `Parent.field` for relation pipelines).
    pub type_label: String,
    /// Access-shape tag.
    pub shape: String,
    /// Human-readable plan rendering.
    pub text: String,
    /// Machine-readable plan tree, as JSON text, when candidate planning
    /// produced one.
    pub plan_json: Option<String>,
    /// Per-operator rows in/out and timings from the executed pipeline.
    pub operator_stats: Vec<OperatorStat>,
    /// Total pipeline wall time in microseconds.
    pub elapsed_us: u64,
}

/// The capture switch and the bounded history.
pub struct DebugCapture {
    enabled: bool,
    captures: Vec<CapturedPlan>,
}

impl View for DebugCapture {
    /// Whether recording is on, and the kept captures, oldest first.
    type V = (bool, Seq<CapturedPlan>);

    closed spec fn view(&self) -> (bool, Seq<CapturedPlan>) {
        (self.enabled, self.captures@)
    }
}

/// History after recording `c` into `h`: the oldest capture leaves when
/// the history is full.
pub open spec fn pushed(h: Seq<CapturedPlan>, c: CapturedPlan) -> Seq<CapturedPlan> {
    if h.len() >= CAPACITY {
        h.drop_first().push(c)
    } else {
        h.push(c)
    }
}

/// The `limit` most recent captures of `h`, oldest first; all of them when
/// `limit` is 0 or at least the history's length.
pub open spec fn latest(h: Seq<CapturedPlan>, limit: int) -> Seq<CapturedPlan> {
    if limit == 0 || limit >= h.len() {
        h
    } else {
        h.skip(h.len() - limit)
    }
}

impl DebugCapture {
    #[verifier::type_invariant]
    spec fn bounded(&self) -> bool {
        self.captures@.len() <= CAPACITY
    }

    /// Recording on, nothing captured yet.
    pub fn new() -> (d: Self)
        ensures
            d@ == (true, Seq::<CapturedPlan>::empty()),
    {
        DebugCapture { enabled: true, captures: Vec::new() }
    }

    pub fn set_enabled(&mut self, enabled: bool)
        ensures
            final(self)@ == (enabled, old(self)@.1),
    {
        proof {
            use_type_invariant(&*self);
        }
        self.enabled = enabled;
    }

    pub fn enabled(&self) -> (b: bool)
        ensures
            b == self@.0,
    {
        self.enabled
    }

    /// Records one pipeline execution; nothing changes while recording is off.
    pub fn record(&mut self, capture: CapturedPlan)
        ensures
            final(self)@ == if old(self)@.0 { (true, pushed(old(self)@.1, capture)) } else { old(self)@ },
            final(self)@.1.len() <= CAPACITY,
    {
        proof {
            use_type_invariant(&*self);
        }
        if !self.enabled {
            return;
        }
        let mut captures = Vec::new();
        std::mem::swap(&mut captures, &mut self.captures);
        if captures.len() >= CAPACITY {
            captures.remove(0);
        }
        captures.push(capture);
        self.captures = captures;
    }

    /// The `limit` most recent captures, oldest first; `limit == 0` returns
    /// everything.
    pub fn recent(&self, limit: usize) -> (r: &[CapturedPlan])
        ensures
            r@ == latest(self@.1, limit as int),
    {
        let n = self.captures.len();
        let start = if limit == 0 || limit >= n { 0 } else { n - limit };
        let r = vstd::slice::slice_subrange(self.captures.as_slice(), start, n);
        proof {
            assert(self.captures@.subrange(start as int, n as int) =~= latest(self@.1, limit as int));
        }
        r
    }

    /// Drops every capture; the switch is unchanged.
    pub fn clear(&mut self)
        ensures
            final(self)@ == (old(self)@.0, Seq::<CapturedPlan>::empty()),
    {
        self.captures = Vec::new();
    }
}

} // verus!
