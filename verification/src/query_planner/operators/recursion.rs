//! Graph recursion over relation edges: a breadth-first walk along one
//! relation field from the input roots, materialized according to a
//! [`RecurseGoal`].
//!
//! A per-execution visited set makes cyclic and self-referential graphs
//! terminate, parent links record the first discovery of each node (which
//! is BFS shortestness on unweighted graphs), and the walk never goes deeper
//! than `max_depth` hops, itself clamped to [`RECURSION_LIMIT`].
use vstd::prelude::*;
use std::collections::{HashMap, HashSet};
use crate::query_planner::ir::{untyped_id, EntityId};
use crate::query_planner::traits::{uids_of, PlannerRuntime};
use crate::render::{concat_num, decimal};
use super::source::{dedup_sorted, union_ids};
use super::{
    batches_view, clock_now, total_rows, context_extends, flatten_batches, flow_of, make_stat, CardinalityHint,
    ErrorView, ExecContext, Flow, FlowResult, Operator, OperatorKind, OutputOrdering, PlannerError,
    RowBatch,
};

verus! {

broadcast use vstd::std_specs::hash::group_hash_axioms;

/// Hard upper bound on traversal hops; constructors clamp `max_depth` to it.
pub const RECURSION_LIMIT: u32 = 128;

/// What a finished traversal materializes.
#[derive(Debug, Clone, Copy, PartialEq, Eq, Structural)]
pub enum RecurseGoal {
    /// Nodes at the deepest reached depth.
    Terminal,
    /// Every node reached at depth >= `min_depth`, ascending uid order.
    CollectAll,
    /// One output batch per depth level (depth `min_depth` first).
    Levels,
    /// Root-to-target chain through first-discovery parent links; an empty
    /// batch when the target is unreachable.
    ShortestPath { target: u64 },
}

impl RecurseGoal {
    /// Short label used in explain output.
    pub open spec fn name(self) -> Seq<char> {
        match self {
            RecurseGoal::Terminal => "terminal"@,
            RecurseGoal::CollectAll => "collect"@,
            RecurseGoal::Levels => "levels"@,
            RecurseGoal::ShortestPath { .. } => "shortest"@,
        }
    }

    fn label(&self) -> (s: &'static str)
        ensures
            s@ == self.name(),
    {
        match self {
            RecurseGoal::Terminal => "terminal",
            RecurseGoal::CollectAll => "collect",
            RecurseGoal::Levels => "levels",
            RecurseGoal::ShortestPath { .. } => "shortest",
        }
    }
}

/// `s` with `x` inserted at its ascending position; unchanged when `x` is
/// already at that position.
pub open spec fn insert_sorted(s: Seq<u64>, x: u64) -> Seq<u64>
    decreases s.len(),
{
    if s.len() == 0 {
        seq![x]
    } else if x < s[0] {
        seq![x] + s
    } else if x == s[0] {
        s
    } else {
        seq![s[0]] + insert_sorted(s.drop_first(), x)
    }
}

/// The values of `s` inserted one by one into an ascending sequence.
pub open spec fn sorted_distinct(s: Seq<u64>) -> Seq<u64>
    decreases s.len(),
{
    if s.len() == 0 {
        Seq::empty()
    } else {
        insert_sorted(sorted_distinct(s.drop_last()), s.last())
    }
}

/// Folds the children `found` from `parent` into a level being built
/// (visited set, parent links, ascending next frontier): each child not yet
/// visited is marked visited, linked to `parent`, and joins the frontier.
pub open spec fn absorb(
    st: (Set<u64>, Map<u64, u64>, Seq<u64>),
    parent: u64,
    found: Seq<EntityId>,
) -> (Set<u64>, Map<u64, u64>, Seq<u64>)
    decreases found.len(),
{
    if found.len() == 0 {
        st
    } else {
        let prev = absorb(st, parent, found.drop_last());
        let child = found.last().uid;
        if prev.0.contains(child) {
            prev
        } else {
            (prev.0.insert(child), prev.1.insert(child, parent), insert_sorted(prev.2, child))
        }
    }
}

/// Reads the children of each frontier node in order and folds them in,
/// starting from an empty next frontier; the first failed read stops it.
pub open spec fn expand<R: PlannerRuntime>(
    rt: &R,
    field: Seq<char>,
    frontier: Seq<u64>,
    visited: Set<u64>,
    parents: Map<u64, u64>,
) -> Result<(Set<u64>, Map<u64, u64>, Seq<u64>), Seq<char>>
    decreases frontier.len(),
{
    if frontier.len() == 0 {
        Ok((visited, parents, Seq::empty()))
    } else {
        match expand(rt, field, frontier.drop_last(), visited, parents) {
            Err(e) => Err(e),
            Ok(st) => match rt.spec_related_ids(frontier.last(), field) {
                Ok(found) => Ok(absorb(st, frontier.last(), found)),
                Err(e) => Err(e),
            },
        }
    }
}

/// Breadth-first levels: from `levels` (the last one being the frontier),
/// expand level after level until a level finds nothing new or `max_depth`
/// hops are taken. Yields the levels and the parent links.
pub open spec fn bfs<R: PlannerRuntime>(
    rt: &R,
    field: Seq<char>,
    levels: Seq<Seq<u64>>,
    visited: Set<u64>,
    parents: Map<u64, u64>,
    depth: int,
    max_depth: int,
) -> Result<(Seq<Seq<u64>>, Map<u64, u64>), Seq<char>>
    decreases max_depth - depth,
{
    if depth >= max_depth || levels.len() == 0 {
        Ok((levels, parents))
    } else {
        match expand(rt, field, levels.last(), visited, parents) {
            Err(e) => Err(e),
            Ok(st) => if st.2.len() == 0 {
                Ok((levels, st.1))
            } else {
                bfs(rt, field, levels.push(st.2), st.0, st.1, depth + 1, max_depth)
            },
        }
    }
}

/// The deepest level holding `u`, or -1 when no level does.
pub open spec fn level_of(levels: Seq<Seq<u64>>, u: u64) -> int
    decreases levels.len(),
{
    if levels.len() == 0 {
        -1
    } else if levels.last().contains(u) {
        levels.len() - 1
    } else {
        level_of(levels.drop_last(), u)
    }
}

/// The chain of parent links ending at `x`, root first, following at most
/// `fuel` links.
pub open spec fn parent_chain(parents: Map<u64, u64>, x: u64, fuel: nat) -> Seq<u64>
    decreases fuel,
{
    if fuel > 0 && parents.contains_key(x) {
        parent_chain(parents, parents[x], (fuel - 1) as nat).push(x)
    } else {
        seq![x]
    }
}

/// Untyped ids for the uids.
pub open spec fn as_ids(uids: Seq<u64>) -> Seq<EntityId> {
    uids.map_values(|u: u64| untyped_id(u))
}

/// The levels at depth `min_depth` and deeper.
pub open spec fn levels_from(levels: Seq<Seq<u64>>, min_depth: int) -> Seq<Seq<u64>> {
    if min_depth < levels.len() {
        levels.skip(min_depth)
    } else {
        Seq::empty()
    }
}

/// The batches a finished traversal materializes for `goal`.
pub open spec fn goal_output(
    goal: RecurseGoal,
    levels: Seq<Seq<u64>>,
    parents: Map<u64, u64>,
    min_depth: int,
) -> Seq<Seq<EntityId>> {
    match goal {
        RecurseGoal::Terminal => if levels.len() - 1 >= min_depth {
            seq![as_ids(levels.last())]
        } else {
            seq![Seq::empty()]
        },
        RecurseGoal::CollectAll => seq![as_ids(sorted_distinct(levels_from(levels, min_depth).flatten()))],
        RecurseGoal::Levels => levels_from(levels, min_depth).map_values(|l: Seq<u64>| as_ids(l)),
        RecurseGoal::ShortestPath { target } => if level_of(levels, target) >= 0 {
            seq![as_ids(parent_chain(parents, target, levels.len()))]
        } else {
            seq![Seq::empty()]
        },
    }
}

/// Traversal roots: the distinct uids of the input rows, ascending; none
/// after a control-flow signal.
pub open spec fn recurse_roots(input: Flow) -> Seq<u64> {
    match input {
        Flow::Rows(b) => uids_of(union_ids(b.flatten())),
        _ => Seq::empty(),
    }
}

/// Outcome of a recursion whose input produced `input`: a failed input
/// fails the recursion with the same error; otherwise the traversal from
/// the input's roots.
pub open spec fn recurse_flow<R: PlannerRuntime>(rt: &R, op: RecurseOperator, input: Flow) -> Flow {
    match input {
        Flow::Failed(e) => Flow::Failed(e),
        _ => {
            let roots = recurse_roots(input);
            match bfs(rt, op.field@, seq![roots], roots.to_set(), Map::empty(), 0, op.max_depth as int) {
                Ok(res) => Flow::Rows(goal_output(op.goal, res.0, res.1, op.min_depth as int)),
                Err(e) => Flow::Failed(ErrorView::Storage(e)),
            }
        },
    }
}

/// The contents of each level vector.
pub open spec fn levels_view(levels: Seq<Vec<u64>>) -> Seq<Seq<u64>> {
    levels.map_values(|l: Vec<u64>| l@)
}

/// Every parent link points one or more levels up: the parent sits at some
/// level strictly above its child, or, for a child still in the `next`
/// frontier under construction, at the current deepest level.
pub open spec fn links_descend(levels: Seq<Seq<u64>>, parents: Map<u64, u64>, next: Seq<u64>) -> bool {
    forall|k: u64| #[trigger] parents.contains_key(k) ==> {
        &&& 0 <= level_of(levels, parents[k])
        &&& (level_of(levels, parents[k]) < level_of(levels, k)
            || (next.contains(k) && level_of(levels, parents[k]) == levels.len() - 1))
    }
}

/// Every node at some level is visited, and the `next` frontier holds
/// visited nodes that are at no level yet.
pub open spec fn visited_covers(levels: Seq<Seq<u64>>, visited: Set<u64>, next: Seq<u64>) -> bool {
    &&& forall|u: u64| #[trigger] level_of(levels, u) >= 0 ==> visited.contains(u)
    &&& forall|u: u64| #[trigger] next.contains(u) ==> visited.contains(u) && level_of(levels, u) == -1
}

pub proof fn lemma_insert_sorted_contains(s: Seq<u64>, x: u64, u: u64)
    ensures
        insert_sorted(s, x).contains(u) <==> (s.contains(u) || u == x),
    decreases s.len(),
{
    if s.len() == 0 {
        assert(seq![x][0] == x);
    } else if x < s[0] {
        assert((seq![x] + s)[0] == x);
        if s.contains(u) {
            let i = choose|i: int| 0 <= i < s.len() && s[i] == u;
            assert((seq![x] + s)[i + 1] == u);
        }
        if (seq![x] + s).contains(u) && u != x {
            let i = choose|i: int| 0 <= i < (seq![x] + s).len() && (seq![x] + s)[i] == u;
            assert(s[i - 1] == u);
        }
    } else if x == s[0] {
        assert(s[0] == x);
    } else {
        let t = s.drop_first();
        lemma_insert_sorted_contains(t, x, u);
        let r = seq![s[0]] + insert_sorted(t, x);
        assert(r[0] == s[0]);
        if s.contains(u) && u != s[0] {
            let i = choose|i: int| 0 <= i < s.len() && s[i] == u;
            assert(t[i - 1] == u);
        }
        if insert_sorted(t, x).contains(u) {
            let i = choose|i: int| 0 <= i < insert_sorted(t, x).len() && insert_sorted(t, x)[i] == u;
            assert(r[i + 1] == u);
        }
        if r.contains(u) && u != s[0] {
            let i = choose|i: int| 0 <= i < r.len() && r[i] == u;
            assert(insert_sorted(t, x)[i - 1] == u);
        }
        if t.contains(u) {
            let i = choose|i: int| 0 <= i < t.len() && t[i] == u;
            assert(s[i + 1] == u);
        }
    }
}

/// The level of a node after one more level is appended.
pub proof fn lemma_level_push(levels: Seq<Seq<u64>>, next: Seq<u64>, u: u64)
    ensures
        level_of(levels.push(next), u) == if next.contains(u) { levels.len() as int } else { level_of(levels, u) },
{
    assert(levels.push(next).drop_last() =~= levels);
}

pub proof fn lemma_level_bounds(levels: Seq<Seq<u64>>, u: u64)
    ensures
        -1 <= level_of(levels, u) < levels.len(),
    decreases levels.len(),
{
    if levels.len() > 0 && !levels.last().contains(u) {
        lemma_level_bounds(levels.drop_last(), u);
    }
}

proof fn lemma_absorb_keeps(
    levels: Seq<Seq<u64>>,
    st: (Set<u64>, Map<u64, u64>, Seq<u64>),
    parent: u64,
    found: Seq<EntityId>,
)
    requires
        levels.len() >= 1,
        level_of(levels, parent) == levels.len() - 1,
        links_descend(levels, st.1, st.2),
        visited_covers(levels, st.0, st.2),
    ensures
        links_descend(levels, absorb(st, parent, found).1, absorb(st, parent, found).2),
        visited_covers(levels, absorb(st, parent, found).0, absorb(st, parent, found).2),
    decreases found.len(),
{
    if found.len() > 0 {
        lemma_absorb_keeps(levels, st, parent, found.drop_last());
        let prev = absorb(st, parent, found.drop_last());
        let child = found.last().uid;
        if !prev.0.contains(child) {
            let now = absorb(st, parent, found);
            assert(level_of(levels, child) == -1) by {
                lemma_level_bounds(levels, child);
                if level_of(levels, child) >= 0 {
                    assert(prev.0.contains(child));
                }
            }
            assert forall|k: u64| #[trigger] now.1.contains_key(k) implies {
                &&& 0 <= level_of(levels, now.1[k])
                &&& (level_of(levels, now.1[k]) < level_of(levels, k)
                    || (now.2.contains(k) && level_of(levels, now.1[k]) == levels.len() - 1))
            } by {
                lemma_insert_sorted_contains(prev.2, child, k);
                if k != child {
                    assert(prev.1.contains_key(k));
                }
            }
            assert forall|u: u64| #[trigger] now.2.contains(u) implies now.0.contains(u) && level_of(levels, u) == -1 by {
                lemma_insert_sorted_contains(prev.2, child, u);
            }
        }
    }
}

proof fn lemma_expand_keeps<R: PlannerRuntime>(
    rt: &R,
    field: Seq<char>,
    levels: Seq<Seq<u64>>,
    frontier: Seq<u64>,
    visited: Set<u64>,
    parents: Map<u64, u64>,
)
    requires
        levels.len() >= 1,
        forall|i: int| 0 <= i < frontier.len() ==> #[trigger] level_of(levels, frontier[i]) == levels.len() - 1,
        links_descend(levels, parents, Seq::empty()),
        visited_covers(levels, visited, Seq::empty()),
    ensures
        expand(rt, field, frontier, visited, parents) matches Ok(st) ==> {
            &&& links_descend(levels, st.1, st.2)
            &&& visited_covers(levels, st.0, st.2)
        },
    decreases frontier.len(),
{
    if frontier.len() > 0 {
        let f = frontier.drop_last();
        assert forall|i: int| 0 <= i < f.len() implies #[trigger] level_of(levels, f[i]) == levels.len() - 1 by {
            assert(f[i] == frontier[i]);
        }
        lemma_expand_keeps(rt, field, levels, f, visited, parents);
        if let Ok(st) = expand(rt, field, f, visited, parents) {
            if let Ok(found) = rt.spec_related_ids(frontier.last(), field) {
                assert(level_of(levels, frontier[frontier.len() - 1]) == levels.len() - 1);
                lemma_absorb_keeps(levels, st, frontier.last(), found);
            }
        }
    }
}

/// Every parent link of a finished traversal points to a strictly
/// shallower level, so following links from any node ends at a root.
pub proof fn lemma_bfs_links<R: PlannerRuntime>(
    rt: &R,
    field: Seq<char>,
    levels: Seq<Seq<u64>>,
    visited: Set<u64>,
    parents: Map<u64, u64>,
    depth: int,
    max_depth: int,
)
    requires
        levels.len() >= 1,
        links_descend(levels, parents, Seq::empty()),
        visited_covers(levels, visited, Seq::empty()),
        disjoint_levels(levels),
    ensures
        bfs(rt, field, levels, visited, parents, depth, max_depth) matches Ok(res) ==> {
            &&& res.0.len() >= levels.len()
            &&& res.0.take(levels.len() as int) == levels
            &&& res.0.len() <= levels.len() + if max_depth > depth { max_depth - depth } else { 0 }
            &&& links_descend(res.0, res.1, Seq::empty())
            &&& disjoint_levels(res.0)
        },
    decreases max_depth - depth,
{
    assert(levels.take(levels.len() as int) =~= levels);
    if depth < max_depth {
        let frontier = levels.last();
        assert forall|i: int| 0 <= i < frontier.len() implies #[trigger] level_of(levels, frontier[i]) == levels.len() - 1 by {
            assert(levels.last().contains(frontier[i]));
        }
        lemma_expand_keeps(rt, field, levels, frontier, visited, parents);
        if let Ok(st) = expand(rt, field, frontier, visited, parents) {
            if st.2.len() == 0 {
                assert forall|k: u64| #[trigger] st.1.contains_key(k) implies {
                    &&& 0 <= level_of(levels, st.1[k])
                    &&& (level_of(levels, st.1[k]) < level_of(levels, k)
                        || (Seq::<u64>::empty().contains(k) && level_of(levels, st.1[k]) == levels.len() - 1))
                } by {
                    assert(!st.2.contains(k));
                }
            } else {
                let lv = levels.push(st.2);
                assert forall|k: u64| #[trigger] st.1.contains_key(k) implies {
                    &&& 0 <= level_of(lv, st.1[k])
                    &&& (level_of(lv, st.1[k]) < level_of(lv, k)
                        || (Seq::<u64>::empty().contains(k) && level_of(lv, st.1[k]) == lv.len() - 1))
                } by {
                    lemma_level_push(levels, st.2, k);
                    lemma_level_push(levels, st.2, st.1[k]);
                    lemma_level_bounds(levels, k);
                    if st.2.contains(st.1[k]) {
                        assert(level_of(levels, st.1[k]) == -1);
                    }
                }
                assert forall|u: u64| #[trigger] level_of(lv, u) >= 0 implies st.0.contains(u) by {
                    lemma_level_push(levels, st.2, u);
                }
                assert forall|d1: int, d2: int, u: u64|
                    0 <= d1 < d2 < lv.len() && #[trigger] lv[d1].contains(u) implies !#[trigger] lv[d2].contains(u) by {
                    if d2 == levels.len() {
                        assert(lv[d1] == levels[d1]);
                        lemma_level_at_least(levels, d1, u);
                        assert(lv[d2] == st.2);
                    } else {
                        assert(lv[d1] == levels[d1] && lv[d2] == levels[d2]);
                    }
                }
                lemma_bfs_links(rt, field, lv, st.0, st.1, depth + 1, max_depth);
                if let Ok(res) = bfs(rt, field, lv, st.0, st.1, depth + 1, max_depth) {
                    assert(res.0.take(levels.len() as int) =~= res.0.take(lv.len() as int).take(levels.len() as int));
                    assert(lv.take(levels.len() as int) =~= levels);
                }
            }
        }
    }
}

/// No node sits at two different levels.
pub open spec fn disjoint_levels(levels: Seq<Seq<u64>>) -> bool {
    forall|d1: int, d2: int, u: u64|
        0 <= d1 < d2 < levels.len() && #[trigger] levels[d1].contains(u) ==> !#[trigger] levels[d2].contains(u)
}

/// A node held by level `d` has a deepest level at least `d`.
pub proof fn lemma_level_at_least(levels: Seq<Seq<u64>>, d: int, u: u64)
    requires
        0 <= d < levels.len(),
        levels[d].contains(u),
    ensures
        level_of(levels, u) >= d,
    decreases levels.len(),
{
    if d < levels.len() - 1 && !levels.last().contains(u) {
        assert(levels.drop_last()[d] == levels[d]);
        lemma_level_at_least(levels.drop_last(), d, u);
    }
}

/// A traversal from `roots` keeps the roots as depth 0, takes at most
/// `max_depth` hops, never reaches one node at two depths, and each parent
/// link points from a node to one at a strictly shallower depth, so
/// following links from any reached node ends at a root.
pub proof fn lemma_traversal_shape<R: PlannerRuntime>(rt: &R, field: Seq<char>, roots: Seq<u64>, max_depth: int)
    requires
        max_depth >= 0,
    ensures
        bfs(rt, field, seq![roots], roots.to_set(), Map::empty(), 0, max_depth) matches Ok(res) ==> {
            &&& 1 <= res.0.len() <= max_depth + 1
            &&& res.0[0] == roots
            &&& disjoint_levels(res.0)
            &&& links_descend(res.0, res.1, Seq::empty())
        },
{
    let l0 = seq![roots];
    assert forall|u: u64| #[trigger] level_of(l0, u) >= 0 implies roots.to_set().contains(u) by {
        assert(l0.drop_last() =~= Seq::<Seq<u64>>::empty());
        assert(l0.last() == roots);
        if !roots.contains(u) {
            assert(level_of(Seq::<Seq<u64>>::empty(), u) == -1);
        }
    }
    lemma_bfs_links(rt, field, l0, roots.to_set(), Map::empty(), 0, max_depth);
    if let Ok(res) = bfs(rt, field, l0, roots.to_set(), Map::empty(), 0, max_depth) {
        assert(res.0.take(1)[0] == res.0[0]);
    }
}

/// Following parent links from `x` gives a chain that ends at `x`, in which
/// each node is the recorded parent of the next, and whose first node has
/// no parent when the links were not cut short.
pub proof fn lemma_parent_chain(parents: Map<u64, u64>, x: u64, fuel: nat)
    ensures
        parent_chain(parents, x, fuel).len() >= 1,
        parent_chain(parents, x, fuel).last() == x,
        forall|i: int| 0 <= i < parent_chain(parents, x, fuel).len() - 1 ==>
            parents.contains_key(#[trigger] parent_chain(parents, x, fuel)[i + 1])
            && parents[parent_chain(parents, x, fuel)[i + 1]] == parent_chain(parents, x, fuel)[i],
        parent_chain(parents, x, fuel).len() <= fuel ==> !parents.contains_key(parent_chain(parents, x, fuel)[0]),
    decreases fuel,
{
    if fuel > 0 && parents.contains_key(x) {
        let up = parents[x];
        lemma_parent_chain(parents, up, (fuel - 1) as nat);
        let prev = parent_chain(parents, up, (fuel - 1) as nat);
        let c = prev.push(x);
        assert forall|i: int| 0 <= i < c.len() - 1 implies
            parents.contains_key(#[trigger] c[i + 1]) && parents[c[i + 1]] == c[i] by {
            if i + 1 == c.len() - 1 {
                assert(c[i + 1] == x);
                assert(c[i] == prev.last());
            } else {
                assert(c[i + 1] == prev[i + 1] && c[i] == prev[i]);
            }
        }
        assert(c[0] == prev[0]);
    }
}

/// Inserting values one by one into an ascending sequence yields a strictly
/// ascending sequence holding exactly those values.
pub proof fn lemma_sorted_distinct(s: Seq<u64>)
    ensures
        forall|i: int, j: int| 0 <= i < j < sorted_distinct(s).len() ==> sorted_distinct(s)[i] < sorted_distinct(s)[j],
        forall|u: u64| #[trigger] sorted_distinct(s).contains(u) <==> s.contains(u),
    decreases s.len(),
{
    if s.len() > 0 {
        let init = s.drop_last();
        lemma_sorted_distinct(init);
        lemma_insert_sorted_keeps(sorted_distinct(init), s.last());
        assert forall|u: u64| #[trigger] sorted_distinct(s).contains(u) <==> s.contains(u) by {
            lemma_insert_sorted_contains(sorted_distinct(init), s.last(), u);
            if init.contains(u) {
                let k = choose|k: int| 0 <= k < init.len() && init[k] == u;
                assert(s[k] == u);
            }
            if s.contains(u) && u != s.last() {
                let k = choose|k: int| 0 <= k < s.len() && s[k] == u;
                assert(init[k] == u);
            }
            if u == s.last() {
                assert(s[s.len() - 1] == u);
            }
        }
    }
}

proof fn lemma_insert_sorted_keeps(s: Seq<u64>, x: u64)
    requires
        forall|i: int, j: int| 0 <= i < j < s.len() ==> s[i] < s[j],
    ensures
        forall|i: int, j: int| 0 <= i < j < insert_sorted(s, x).len() ==> insert_sorted(s, x)[i] < insert_sorted(s, x)[j],
    decreases s.len(),
{
    if s.len() > 0 && x > s[0] {
        let t = s.drop_first();
        assert forall|i: int, j: int| 0 <= i < j < t.len() implies t[i] < t[j] by {
            assert(t[i] == s[i + 1] && t[j] == s[j + 1]);
        }
        lemma_insert_sorted_keeps(t, x);
        let it = insert_sorted(t, x);
        let r = seq![s[0]] + it;
        assert forall|k: int| 0 <= k < it.len() implies s[0] < #[trigger] it[k] by {
            lemma_insert_sorted_contains(t, x, it[k]);
            assert(it.contains(it[k]));
            if it[k] != x {
                let m = choose|m: int| 0 <= m < t.len() && t[m] == it[k];
                assert(s[m + 1] == it[k]);
            }
        }
        assert forall|i: int, j: int| 0 <= i < j < r.len() implies r[i] < r[j] by {
            assert(r[j] == it[j - 1]);
            if i > 0 {
                assert(r[i] == it[i - 1]);
            }
        }
    } else if s.len() > 0 && x < s[0] {
        let r = seq![x] + s;
        assert forall|i: int, j: int| 0 <= i < j < r.len() implies r[i] < r[j] by {
            assert(r[j] == s[j - 1]);
            if i > 0 {
                assert(r[i] == s[i - 1]);
            } else if j - 1 > 0 {
                assert(s[0] < s[j - 1]);
            }
        }
    }
}

proof fn lemma_expand_err<R: PlannerRuntime>(
    rt: &R,
    field: Seq<char>,
    frontier: Seq<u64>,
    k: int,
    visited: Set<u64>,
    parents: Map<u64, u64>,
)
    requires
        0 <= k <= frontier.len(),
        expand(rt, field, frontier.take(k), visited, parents) is Err,
    ensures
        expand(rt, field, frontier, visited, parents) == expand(rt, field, frontier.take(k), visited, parents),
    decreases frontier.len() - k,
{
    if k < frontier.len() {
        assert(frontier.take(k + 1).drop_last() =~= frontier.take(k));
        lemma_expand_err(rt, field, frontier, k + 1, visited, parents);
    } else {
        assert(frontier.take(k) =~= frontier);
    }
}

/// Inserts `x` at its ascending position in `s`.
fn insert_sorted_vec(s: &mut Vec<u64>, x: u64)
    ensures
        final(s)@ == insert_sorted(old(s)@, x),
{
    let ghost orig = s@;
    proof {
        assert(orig.skip(0) =~= orig);
        assert(orig.take(0) + insert_sorted(orig.skip(0), x) =~= insert_sorted(orig, x));
    }
    let mut i: usize = 0;
    while i < s.len() && s[i] < x
        invariant
            i <= s@.len(),
            s@ == orig,
            insert_sorted(orig, x) == orig.take(i as int) + insert_sorted(orig.skip(i as int), x),
        decreases s@.len() - i,
    {
        proof {
            let rest = orig.skip(i as int);
            assert(rest.drop_first() =~= orig.skip(i as int + 1));
            assert(orig.take(i as int) + (seq![rest[0]] + insert_sorted(rest.drop_first(), x))
                =~= orig.take(i as int + 1) + insert_sorted(orig.skip(i as int + 1), x));
        }
        i = i + 1;
    }
    if i < s.len() && s[i] == x {
        proof {
            assert(orig.take(i as int) + orig.skip(i as int) =~= orig);
        }
        return;
    }
    proof {
        if i < orig.len() {
            assert(orig.take(i as int) + (seq![x] + orig.skip(i as int)) =~= orig.insert(i as int, x));
        } else {
            assert(orig.take(i as int) + seq![x] =~= orig.insert(i as int, x));
        }
    }
    s.insert(i, x);
}

/// The uid of each id, in order.
fn uids_vec(ids: &Vec<EntityId>) -> (out: Vec<u64>)
    ensures
        out@ == uids_of(ids@),
{
    let mut out: Vec<u64> = Vec::new();
    let mut i: usize = 0;
    while i < ids.len()
        invariant
            i <= ids@.len(),
            out@ == uids_of(ids@.take(i as int)),
        decreases ids@.len() - i,
    {
        out.push(ids[i].uid);
        proof {
            assert(uids_of(ids@.take(i as int + 1)) =~= uids_of(ids@.take(i as int)).push(ids@[i as int].uid));
        }
        i = i + 1;
    }
    proof {
        assert(ids@.take(ids@.len() as int) =~= ids@);
    }
    out
}

/// Untyped ids for the uids of `uids`, in order.
fn ids_of(uids: &Vec<u64>) -> (out: Vec<EntityId>)
    ensures
        out@ == as_ids(uids@),
{
    let mut out: Vec<EntityId> = Vec::new();
    let mut i: usize = 0;
    while i < uids.len()
        invariant
            i <= uids@.len(),
            out@ == as_ids(uids@.take(i as int)),
        decreases uids@.len() - i,
    {
        out.push(EntityId::new(uids[i]));
        proof {
            assert(as_ids(uids@.take(i as int + 1)) =~= as_ids(uids@.take(i as int)).push(untyped_id(uids@[i as int])));
        }
        i = i + 1;
    }
    proof {
        assert(uids@.take(uids@.len() as int) =~= uids@);
    }
    out
}

/// True when `v` holds `x`.
fn holds(v: &Vec<u64>, x: u64) -> (b: bool)
    ensures
        b == v@.contains(x),
{
    let mut i: usize = 0;
    while i < v.len()
        invariant
            i <= v@.len(),
            forall|j: int| 0 <= j < i ==> v@[j] != x,
        decreases v@.len() - i,
    {
        if v[i] == x {
            return true;
        }
        i = i + 1;
    }
    false
}

/// True when some level holds `x`.
fn reached(levels: &Vec<Vec<u64>>, x: u64) -> (b: bool)
    ensures
        b == (level_of(levels_view(levels@), x) >= 0),
{
    let ghost lv = levels_view(levels@);
    let mut d: usize = levels.len();
    proof {
        assert(lv.take(d as int) =~= lv);
    }
    while d > 0
        invariant
            d <= levels@.len(),
            lv == levels_view(levels@),
            level_of(lv.take(d as int), x) == level_of(lv, x),
        decreases d,
    {
        let ghost t = lv.take(d as int);
        if holds(&levels[d - 1], x) {
            proof {
                assert(t.last() == lv[d - 1]);
            }
            return true;
        }
        proof {
            assert(t.drop_last() =~= lv.take(d - 1));
        }
        d = d - 1;
    }
    false
}

/// Follow one relation field repeatedly from each input root.
pub struct RecurseOperator {
    pub input: Box<Operator>,
    /// Forward relation field traversed each hop (e.g. `children`).
    pub field: String,
    pub min_depth: u32,
    pub max_depth: u32,
    pub goal: RecurseGoal,
}

impl RecurseOperator {
    pub fn new(input: Box<Operator>, field: &str, min_depth: u32, max_depth: u32, goal: RecurseGoal) -> (r: Self)
        ensures
            r.input == input,
            r.field@ == field@,
            r.min_depth == min_depth,
            r.max_depth == if max_depth < RECURSION_LIMIT { max_depth } else { RECURSION_LIMIT },
            r.goal == goal,
    {
        let max_depth = if max_depth < RECURSION_LIMIT { max_depth } else { RECURSION_LIMIT };
        RecurseOperator { input, field: String::from_str(field), min_depth, max_depth, goal }
    }

    pub fn boxed(input: Box<Operator>, field: &str, min_depth: u32, max_depth: u32, goal: RecurseGoal) -> (r: Box<Operator>)
        ensures
            *r matches Operator::Recurse(o) && {
                &&& o.input == input
                &&& o.field@ == field@
                &&& o.min_depth == min_depth
                &&& o.max_depth == if max_depth < RECURSION_LIMIT { max_depth } else { RECURSION_LIMIT }
                &&& o.goal == goal
            },
    {
        Box::new(Operator::Recurse(RecurseOperator::new(input, field, min_depth, max_depth, goal)))
    }

    pub fn kind(&self) -> (k: OperatorKind)
        ensures
            k == OperatorKind::Traverse,
    {
        OperatorKind::Traverse
    }

    /// The explain detail line.
    pub open spec fn describe(self) -> Seq<char> {
        "recurse "@ + self.field@ + " depth "@ + decimal(self.min_depth as nat) + ".."@
            + decimal(self.max_depth as nat) + " goal="@ + self.goal.name()
    }

    pub fn detail(&self) -> (s: String)
        ensures
            s@ == self.describe(),
    {
        let mut s = String::from_str("recurse ");
        s.append(self.field.as_str());
        s.append(" depth ");
        crate::render::append_decimal(&mut s, self.min_depth as u64);
        s.append("..");
        crate::render::append_decimal(&mut s, self.max_depth as u64);
        s.append(" goal=");
        s.append(self.goal.label());
        s
    }

    pub fn cardinality(&self) -> (c: CardinalityHint)
        ensures
            c == CardinalityHint::Unbounded,
    {
        CardinalityHint::Unbounded
    }

    pub fn output_ordering(&self) -> (o: OutputOrdering)
        ensures
            o is Unordered,
    {
        OutputOrdering::Unordered
    }

    /// Runs the breadth-first walk from `roots`: one level per depth
    /// starting at depth 0 (the roots), plus first-discovery parent links.
    fn traverse<R: PlannerRuntime>(&self, ctx: &ExecContext<R>, roots: Vec<u64>) -> (r: Result<(Vec<Vec<u64>>, HashMap<u64, u64>), PlannerError>)
        ensures
            match r {
                Ok(res) => bfs(ctx.spec_runtime(), self.field@, seq![roots@], roots@.to_set(), Map::empty(), 0, self.max_depth as int)
                    == Ok::<(Seq<Seq<u64>>, Map<u64, u64>), Seq<char>>((levels_view(res.0@), res.1@)),
                Err(e) => match e {
                    PlannerError::Storage(m) => bfs(ctx.spec_runtime(), self.field@, seq![roots@], roots@.to_set(), Map::empty(), 0, self.max_depth as int)
                        == Err::<(Seq<Seq<u64>>, Map<u64, u64>), Seq<char>>(m@),
                    PlannerError::Unsupported(_) => false,
                },
            },
    {
        let ghost rt = ctx.spec_runtime();
        let ghost field = self.field@;
        let ghost goal = bfs(rt, field, seq![roots@], roots@.to_set(), Map::empty(), 0, self.max_depth as int);
        let mut visited: HashSet<u64> = HashSet::new();
        let mut i: usize = 0;
        while i < roots.len()
            invariant
                i <= roots@.len(),
                visited@ == roots@.take(i as int).to_set(),
            decreases roots@.len() - i,
        {
            proof {
                assert(roots@.take(i as int + 1) =~= roots@.take(i as int).push(roots@[i as int]));
                roots@.take(i as int).lemma_push_to_set_commute(roots@[i as int]);
            }
            visited.insert(roots[i]);
            i = i + 1;
        }
        proof {
            assert(roots@.take(roots@.len() as int) =~= roots@);
        }
        let mut levels: Vec<Vec<u64>> = Vec::new();
        levels.push(roots);
        let mut parents: HashMap<u64, u64> = HashMap::new();
        proof {
            assert(levels_view(levels@) =~= seq![levels@[0]@]);
        }
        let mut depth: u32 = 0;
        while depth < self.max_depth
            invariant
                levels@.len() == depth as int + 1,
                rt == ctx.spec_runtime(),
                field == self.field@,
                goal == bfs(rt, field, seq![roots@], roots@.to_set(), Map::empty(), 0, self.max_depth as int),
                bfs(rt, field, levels_view(levels@), visited@, parents@, depth as int, self.max_depth as int) == goal,
            decreases self.max_depth - depth,
        {
            let ghost lv = levels_view(levels@);
            let ghost v0 = visited@;
            let ghost p0 = parents@;
            let last = levels.len() - 1;
            let mut next: Vec<u64> = Vec::new();
            let mut i: usize = 0;
            proof {
                assert(lv.last().take(0) =~= Seq::<u64>::empty());
            }
            while i < levels[last].len()
                invariant
                    levels@.len() == depth as int + 1,
                    last == depth,
                    lv == levels_view(levels@),
                    i <= lv.last().len(),
                    depth < self.max_depth,
                    goal == bfs(rt, field, seq![roots@], roots@.to_set(), Map::empty(), 0, self.max_depth as int),
                    bfs(rt, field, lv, v0, p0, depth as int, self.max_depth as int) == goal,
                    rt == ctx.spec_runtime(),
                    field == self.field@,
                    expand(rt, field, lv.last().take(i as int), v0, p0)
                        == Ok::<(Set<u64>, Map<u64, u64>, Seq<u64>), Seq<char>>((visited@, parents@, next@)),
                decreases lv.last().len() - i,
            {
                let uid = levels[last][i];
                proof {
                    assert(lv.last().take(i as int + 1).drop_last() =~= lv.last().take(i as int));
                    assert(lv.last().take(i as int + 1).last() == uid);
                }
                let found = match ctx.runtime().related_ids(&EntityId::new(uid), self.field.as_str()) {
                    Ok(f) => f,
                    Err(e) => {
                        proof {
                            lemma_expand_err(rt, field, lv.last(), i as int + 1, v0, p0);
                        }
                        return Err(PlannerError::Storage(e));
                    },
                };
                let ghost st = (visited@, parents@, next@);
                let mut j: usize = 0;
                proof {
                    assert(found@.take(0) =~= Seq::<EntityId>::empty());
                }
                while j < found.len()
                    invariant
                        j <= found@.len(),
                        absorb(st, uid, found@.take(j as int)) == (visited@, parents@, next@),
                    decreases found@.len() - j,
                {
                    proof {
                        assert(found@.take(j as int + 1).drop_last() =~= found@.take(j as int));
                    }
                    let child = found[j].uid;
                    if visited.insert(child) {
                        parents.insert(child, uid);
                        insert_sorted_vec(&mut next, child);
                    }
                    j = j + 1;
                }
                proof {
                    assert(found@.take(found@.len() as int) =~= found@);
                }
                i = i + 1;
            }
            proof {
                assert(lv.last().take(lv.last().len() as int) =~= lv.last());
            }
            if next.len() == 0 {
                return Ok((levels, parents));
            }
            proof {
                assert(levels_view(levels@.push(next)) =~= lv.push(next@));
            }
            levels.push(next);
            depth = depth + 1;
        }
        Ok((levels, parents))
    }

    /// Materializes the traversal for the operator's goal.
    fn materialize(&self, levels: &Vec<Vec<u64>>, parents: &HashMap<u64, u64>) -> (out: Vec<RowBatch>)
        requires
            levels@.len() >= 1,
            links_descend(levels_view(levels@), parents@, Seq::empty()),
        ensures
            batches_view(out@) == goal_output(self.goal, levels_view(levels@), parents@, self.min_depth as int),
    {
        match self.goal {
            RecurseGoal::Terminal => terminal_batch(levels, self.min_depth),
            RecurseGoal::CollectAll => collect_all(levels, self.min_depth),
            RecurseGoal::Levels => level_batches(levels, self.min_depth),
            RecurseGoal::ShortestPath { target } => shortest_path(levels, parents, target),
        }
    }

    pub fn execute<R: PlannerRuntime>(&self, ctx: &mut ExecContext<R>) -> (r: FlowResult<Vec<RowBatch>>)
        ensures
            flow_of(r) == Operator::Recurse(*self).spec_execute(old(ctx).spec_runtime(), old(ctx).spec_depth()),
            context_extends(*old(ctx), *final(ctx)),
        decreases self,
    {
        let start = clock_now();
        let flow = self.input.execute(ctx);
        let ghost input = flow_of(flow);
        let roots: Vec<u64> = match flow {
            FlowResult::Rows(batches) => {
                let rows = flatten_batches(batches);
                let distinct = dedup_sorted(rows);
                uids_vec(&distinct)
            },
            FlowResult::Error(e) => return FlowResult::Error(e),
            _ => Vec::new(),
        };
        proof {
            assert(roots@ =~= recurse_roots(input));
        }
        let ghost root_seq = roots@;
        let (levels, parents) = match self.traverse(ctx, roots) {
            Ok(res) => res,
            Err(e) => return FlowResult::Error(e),
        };
        proof {
            lemma_traversal_shape(ctx.spec_runtime(), self.field@, root_seq, self.max_depth as int);
        }
        let out = self.materialize(&levels, &parents);
        let rows_in = levels[0].len();
        let rows_out = total_rows(&out);
        let mut note = concat_num("", levels.len() as u64, " levels deep, goal=");
        note.append(self.goal.label());
        let mut notes: Vec<String> = Vec::new();
        notes.push(note);
        ctx.record(make_stat("traverse", self.detail(), rows_in, rows_out, &start, notes));
        FlowResult::Rows(out)
    }
}

/// The deepest level as one batch when it is at least `min_depth` deep,
/// else one empty batch.
fn terminal_batch(levels: &Vec<Vec<u64>>, min_depth: u32) -> (out: Vec<RowBatch>)
    requires
        levels@.len() >= 1,
    ensures
        batches_view(out@) == goal_output(RecurseGoal::Terminal, levels_view(levels@), Map::empty(), min_depth as int),
{
    let ghost lv = levels_view(levels@);
    let mut out: Vec<RowBatch> = Vec::new();
    let last = levels.len() - 1;
    if last >= min_depth as usize {
        out.push(RowBatch(ids_of(&levels[last])));
        proof {
            assert(lv.last() == levels@[last as int]@);
        }
    } else {
        out.push(RowBatch(Vec::new()));
    }
    proof {
        assert(batches_view(out@) =~= seq![out@[0].0@]);
    }
    out
}

/// Every node at depth `min_depth` or deeper, ascending, as one batch.
fn collect_all(levels: &Vec<Vec<u64>>, min_depth: u32) -> (out: Vec<RowBatch>)
    ensures
        batches_view(out@) == seq![as_ids(sorted_distinct(levels_from(levels_view(levels@), min_depth as int).flatten()))],
{
    let ghost lv = levels_view(levels@);
    let ghost from = levels_from(lv, min_depth as int);
    let min = min_depth as usize;
    let mut all: Vec<u64> = Vec::new();
    if min < levels.len() {
        let ghost mut acc: Seq<u64> = Seq::empty();
        let mut d: usize = min;
        proof {
            assert(from.take(0).flatten() =~= Seq::<u64>::empty());
        }
        while d < levels.len()
            invariant
                lv == levels_view(levels@),
                from == lv.skip(min as int),
                min <= d <= levels@.len(),
                acc == from.take(d - min).flatten(),
                all@ == sorted_distinct(acc),
            decreases levels@.len() - d,
        {
            let mut j: usize = 0;
            proof {
                assert(acc + lv[d as int].take(0) =~= acc);
            }
            while j < levels[d].len()
                invariant
                    lv == levels_view(levels@),
                    d < levels@.len(),
                    j <= lv[d as int].len(),
                    all@ == sorted_distinct(acc + lv[d as int].take(j as int)),
                decreases lv[d as int].len() - j,
            {
                proof {
                    let before = acc + lv[d as int].take(j as int);
                    let after = acc + lv[d as int].take(j as int + 1);
                    assert(after.drop_last() =~= before);
                    assert(after.last() == levels@[d as int]@[j as int]);
                }
                insert_sorted_vec(&mut all, levels[d][j]);
                j = j + 1;
            }
            proof {
                assert(lv[d as int].take(lv[d as int].len() as int) =~= lv[d as int]);
                let t = from.take(d - min + 1);
                assert(t.drop_last() =~= from.take(d - min));
                assert(t.last() == lv[d as int]);
                t.drop_last().lemma_flatten_push(t.last());
                assert(t.drop_last().push(t.last()) =~= t);
                acc = acc + lv[d as int];
            }
            d = d + 1;
        }
        proof {
            assert(from.take(d - min) =~= from);
        }
    } else {
        proof {
            assert(from.flatten() =~= Seq::<u64>::empty());
        }
    }
    let mut out: Vec<RowBatch> = Vec::new();
    out.push(RowBatch(ids_of(&all)));
    proof {
        assert(batches_view(out@) =~= seq![out@[0].0@]);
    }
    out
}

/// One batch per level at depth `min_depth` or deeper.
fn level_batches(levels: &Vec<Vec<u64>>, min_depth: u32) -> (out: Vec<RowBatch>)
    ensures
        batches_view(out@) == levels_from(levels_view(levels@), min_depth as int).map_values(|l: Seq<u64>| as_ids(l)),
{
    let ghost lv = levels_view(levels@);
    let ghost from = levels_from(lv, min_depth as int);
    let min = min_depth as usize;
    let mut out: Vec<RowBatch> = Vec::new();
    if min < levels.len() {
        let mut d: usize = min;
        proof {
            assert(batches_view(out@) =~= from.take(0).map_values(|l: Seq<u64>| as_ids(l)));
        }
        while d < levels.len()
            invariant
                lv == levels_view(levels@),
                from == lv.skip(min as int),
                min <= d <= levels@.len(),
                batches_view(out@) == from.take(d - min).map_values(|l: Seq<u64>| as_ids(l)),
            decreases levels@.len() - d,
        {
            let ghost before = out@;
            out.push(RowBatch(ids_of(&levels[d])));
            proof {
                assert(from[d - min] == lv[d as int]);
                assert(out@ =~= before.push(out@[before.len() as int]));
                assert(batches_view(out@) =~= batches_view(before).push(as_ids(lv[d as int])));
                assert(from.take(d - min + 1) =~= from.take(d - min).push(from[d - min]));
                assert(from.take(d - min + 1).map_values(|l: Seq<u64>| as_ids(l))
                    =~= from.take(d - min).map_values(|l: Seq<u64>| as_ids(l)).push(as_ids(from[d - min])));
            }
            d = d + 1;
        }
        proof {
            assert(from.take(d - min) =~= from);
        }
    } else {
        proof {
            assert(batches_view(out@) =~= from.map_values(|l: Seq<u64>| as_ids(l)));
        }
    }
    out
}

/// The root-to-`target` chain of parent links as one batch; an empty batch
/// when no level holds `target`.
fn shortest_path(levels: &Vec<Vec<u64>>, parents: &HashMap<u64, u64>, target: u64) -> (out: Vec<RowBatch>)
    requires
        levels@.len() >= 1,
        links_descend(levels_view(levels@), parents@, Seq::empty()),
    ensures
        batches_view(out@) == goal_output(RecurseGoal::ShortestPath { target }, levels_view(levels@), parents@, 0),
{
    let ghost lv = levels_view(levels@);
    let ghost links = parents@;
    let mut out: Vec<RowBatch> = Vec::new();
    if reached(levels, target) {
        let ghost full: nat = lv.len();
        let mut chain: Vec<u64> = Vec::new();
        chain.push(target);
        let mut cursor = target;
        let ghost mut fuel: nat = full;
        proof {
            lemma_level_bounds(lv, target);
            assert(chain@.drop_first() =~= Seq::<u64>::empty());
            assert(parent_chain(links, target, full) =~= parent_chain(links, cursor, fuel) + chain@.drop_first());
        }
        loop
            invariant
                lv == levels_view(levels@),
                links == parents@,
                links_descend(lv, links, Seq::empty()),
                0 <= level_of(lv, cursor) < fuel,
                chain@.len() >= 1,
                chain@[0] == cursor,
                parent_chain(links, target, full) == parent_chain(links, cursor, fuel) + chain@.drop_first(),
            ensures
                chain@ == parent_chain(links, target, full),
            decreases level_of(lv, cursor),
        {
            match parents.get(&cursor) {
                Some(p) => {
                    let up = *p;
                    let ghost old_chain = chain@;
                    proof {
                        assert(links.contains_key(cursor));
                        assert(links[cursor] == up);
                        assert(parent_chain(links, cursor, fuel) == parent_chain(links, up, (fuel - 1) as nat).push(cursor));
                    }
                    chain.insert(0, up);
                    proof {
                        assert(chain@.drop_first() =~= old_chain);
                        assert(parent_chain(links, up, (fuel - 1) as nat).push(cursor) + old_chain.drop_first()
                            =~= parent_chain(links, up, (fuel - 1) as nat) + old_chain);
                        fuel = (fuel - 1) as nat;
                    }
                    cursor = up;
                },
                None => {
                    proof {
                        assert(!links.contains_key(cursor));
                        assert(seq![cursor] + chain@.drop_first() =~= chain@);
                    }
                    break;
                },
            }
        }
        out.push(RowBatch(ids_of(&chain)));
    } else {
        out.push(RowBatch(Vec::new()));
    }
    proof {
        assert(batches_view(out@) =~= seq![out@[0].0@]);
    }
    out
}

} // verus!
