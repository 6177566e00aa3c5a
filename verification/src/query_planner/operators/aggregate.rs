//! Hash-grouped aggregation: which registered function and argument each
//! planned aggregate uses, and how evaluated rows fall into groups. Rows
//! are grouped by the debug text of their key tuple and the groups come out
//! in ascending order of that text; a global aggregation (no group keys)
//! over no rows still yields its one, empty, group. Evaluating the key and
//! argument expressions and folding the groups' values through the
//! accumulators happen around this.
use vstd::prelude::*;
use crate::query_planner::ir::{AggregateFunction, AggregateSpec, LogicalExpr, QueryValue, ValueView};
use crate::query_planner::operators::PlannerError;
use crate::query_planner::physical_expr::{copy_value, quoted, ExprError};
use crate::query_planner::value_text::{append_value_debug, value_debug};
use crate::render::same_text;

verus! {

/// The argument a planned aggregate evaluates per row.
#[derive(Debug)]
pub enum PlannedArg<'a> {
    /// The spec's own expression.
    Expr(&'a LogicalExpr),
    /// The constant `Int(1)`: a `count` without an argument counts rows.
    RowCount,
    /// No argument.
    NoArg,
}

/// An aggregate ready to run: the registered function's name, its argument
/// and the output alias.
#[derive(Debug)]
pub struct PlannedAggregate<'a> {
    pub function: &'static str,
    pub arg: PlannedArg<'a>,
    pub alias: String,
}

/// The registered name of an aggregate function.
pub open spec fn registry_name(f: AggregateFunction) -> Seq<char> {
    match f {
        AggregateFunction::Count => "count"@,
        AggregateFunction::Sum => "math::sum"@,
        AggregateFunction::Mean => "math::mean"@,
        AggregateFunction::Min => "math::min"@,
        AggregateFunction::Max => "math::max"@,
    }
}

/// Why an expression cannot be compiled.
pub enum CompileFailure {
    UnknownFunction,
    Subquery,
}

/// The first node, left to right, that compilation refuses: a function
/// call or a subquery.
pub open spec fn first_compile_failure(e: LogicalExpr) -> Option<CompileFailure>
    decreases e,
{
    match e {
        LogicalExpr::Value(_) => None,
        LogicalExpr::Field(_) => None,
        LogicalExpr::Binary { left, right, .. } => match first_compile_failure(*left) {
            Some(f) => Some(f),
            None => first_compile_failure(*right),
        },
        LogicalExpr::Unary { expr, .. } => first_compile_failure(*expr),
        LogicalExpr::Function { .. } => Some(CompileFailure::UnknownFunction),
        LogicalExpr::Subquery(_) => Some(CompileFailure::Subquery),
    }
}

/// The message of a compilation failure.
pub open spec fn failure_message(f: CompileFailure) -> Seq<char> {
    match f {
        CompileFailure::UnknownFunction => "unknown function "@ + quoted(Seq::empty()),
        CompileFailure::Subquery => "subquery expressions require the Stage 3.4 bridge"@,
    }
}

/// The failure of the first spec whose expression does not compile.
pub open spec fn first_spec_failure(specs: Seq<AggregateSpec>) -> Option<CompileFailure>
    decreases specs.len(),
{
    if specs.len() == 0 {
        None
    } else {
        match specs[0].expr {
            Some(e) if first_compile_failure(e) is Some => first_compile_failure(e),
            _ => first_spec_failure(specs.drop_first()),
        }
    }
}

/// The planned argument of a spec: its expression; else, for `count`, the
/// row-counting constant; else none.
pub open spec fn planned_arg_matches(arg: PlannedArg, spec: AggregateSpec) -> bool {
    match spec.expr {
        Some(e) => arg matches PlannedArg::Expr(x) && *x == e,
        None => if spec.function == AggregateFunction::Count { arg is RowCount } else { arg is NoArg },
    }
}

fn compile_check(e: &LogicalExpr) -> (r: Result<(), ExprError>)
    ensures
        match first_compile_failure(*e) {
            None => r is Ok,
            Some(f) => r matches Err(x) && x.message() == failure_message(f),
        },
    decreases e,
{
    match e {
        LogicalExpr::Value(_) => Ok(()),
        LogicalExpr::Field(_) => Ok(()),
        LogicalExpr::Binary { left, right, .. } => {
            match compile_check(left) {
                Err(x) => Err(x),
                Ok(()) => compile_check(right),
            }
        },
        LogicalExpr::Unary { expr, .. } => compile_check(expr),
        LogicalExpr::Function { .. } => Err(ExprError::UnknownFunction(String::new())),
        LogicalExpr::Subquery(_) => Err(ExprError::UnsupportedSubquery),
    }
}

fn registered_name(f: AggregateFunction) -> (s: &'static str)
    ensures
        s@ == registry_name(f),
{
    match f {
        AggregateFunction::Count => "count",
        AggregateFunction::Sum => "math::sum",
        AggregateFunction::Mean => "math::mean",
        AggregateFunction::Min => "math::min",
        AggregateFunction::Max => "math::max",
    }
}

/// Plans each aggregate spec: the registered function for its kind and
/// its argument. Fails with `Unsupported` and the compiler's message at the
/// first spec whose expression holds a function call or a subquery.
pub fn compile_aggregates<'a>(specs: &'a Vec<AggregateSpec>) -> (r: Result<Vec<PlannedAggregate<'a>>, PlannerError>)
    ensures
        match first_spec_failure(specs@) {
            Some(f) => r matches Err(PlannerError::Unsupported(m)) && m@ == failure_message(f),
            None => r matches Ok(v) && v@.len() == specs@.len() && forall|i: int|
                0 <= i < specs@.len() ==> {
                    &&& (#[trigger] v@[i]).function@ == registry_name(specs@[i].function)
                    &&& v@[i].alias@ == specs@[i].alias@
                    &&& planned_arg_matches(v@[i].arg, specs@[i])
                },
        },
{
    let mut out: Vec<PlannedAggregate<'a>> = Vec::new();
    let mut i: usize = 0;
    proof {
        assert(specs@.skip(0) =~= specs@);
    }
    while i < specs.len()
        invariant
            i <= specs@.len(),
            out@.len() == i,
            first_spec_failure(specs@) == first_spec_failure(specs@.skip(i as int)),
            forall|j: int|
                0 <= j < i ==> {
                    &&& (#[trigger] out@[j]).function@ == registry_name(specs@[j].function)
                    &&& out@[j].alias@ == specs@[j].alias@
                    &&& planned_arg_matches(out@[j].arg, specs@[j])
                },
        decreases specs@.len() - i,
    {
        proof {
            assert(specs@.skip(i as int).drop_first() =~= specs@.skip(i as int + 1));
            assert(specs@.skip(i as int)[0] == specs@[i as int]);
        }
        let spec = &specs[i];
        let arg = match &spec.expr {
            Some(e) => {
                match compile_check(e) {
                    Err(x) => {
                        return Err(PlannerError::Unsupported(x.to_string()));
                    },
                    Ok(()) => PlannedArg::Expr(e),
                }
            },
            None => match spec.function {
                AggregateFunction::Count => PlannedArg::RowCount,
                _ => PlannedArg::NoArg,
            },
        };
        out.push(PlannedAggregate { function: registered_name(spec.function), arg, alias: spec.alias.clone() });
        i = i + 1;
    }
    Ok(out)
}

/// The contents of each value.
pub open spec fn vals(s: Seq<QueryValue>) -> Seq<ValueView> {
    s.map_values(|v: QueryValue| v@)
}

/// The values' debug renderings joined by `, `.
pub open spec fn joined_debug(vs: Seq<ValueView>) -> Seq<char>
    decreases vs.len(),
{
    if vs.len() == 0 {
        Seq::empty()
    } else if vs.len() == 1 {
        value_debug(vs[0])
    } else {
        joined_debug(vs.drop_last()) + ", "@ + value_debug(vs.last())
    }
}

/// The debug text of a key tuple: `[v1, v2, ...]`.
pub open spec fn key_text(key: Seq<ValueView>) -> Seq<char> {
    "["@ + joined_debug(key) + "]"@
}

/// `a` sorts before `b`: character codes compared left to right, a proper
/// prefix first.
pub open spec fn text_before(a: Seq<char>, b: Seq<char>) -> bool
    decreases a.len(),
{
    if a.len() == 0 {
        b.len() > 0
    } else if b.len() == 0 {
        false
    } else if a[0] == b[0] {
        text_before(a.drop_first(), b.drop_first())
    } else {
        (a[0] as int) < (b[0] as int)
    }
}

/// A group: its key and the argument rows that fell into it, in order.
pub type GroupView = (Seq<ValueView>, Seq<Seq<ValueView>>);

/// `gs` after one more row: added to the group whose key text equals the
/// row's, else a new group placed before the first group whose key text
/// sorts after it.
pub open spec fn add_row(gs: Seq<GroupView>, key: Seq<ValueView>, args: Seq<ValueView>) -> Seq<GroupView>
    decreases gs.len(),
{
    if gs.len() == 0 {
        seq![(key, seq![args])]
    } else if key_text(gs[0].0) == key_text(key) {
        gs.update(0, (gs[0].0, gs[0].1.push(args)))
    } else if text_before(key_text(key), key_text(gs[0].0)) {
        seq![(key, seq![args])] + gs
    } else {
        seq![gs[0]] + add_row(gs.drop_first(), key, args)
    }
}

/// The groups of a sequence of (key, arguments) rows, taken in order.
pub open spec fn grouped(rows: Seq<(Seq<ValueView>, Seq<ValueView>)>) -> Seq<GroupView>
    decreases rows.len(),
{
    if rows.len() == 0 {
        Seq::empty()
    } else {
        add_row(grouped(rows.drop_last()), rows.last().0, rows.last().1)
    }
}

/// The groups of an aggregation: the rows' groups, or, for a global
/// aggregation over no rows, one empty group.
pub open spec fn aggregation_groups(rows: Seq<(Seq<ValueView>, Seq<ValueView>)>, global: bool) -> Seq<GroupView> {
    if global && rows.len() == 0 {
        seq![(Seq::empty(), Seq::empty())]
    } else {
        grouped(rows)
    }
}

pub open spec fn rows_view(rows: Seq<(Vec<QueryValue>, Vec<QueryValue>)>) -> Seq<(Seq<ValueView>, Seq<ValueView>)> {
    rows.map_values(|r: (Vec<QueryValue>, Vec<QueryValue>)| (vals(r.0@), vals(r.1@)))
}

pub open spec fn arg_rows(v: Seq<Vec<QueryValue>>) -> Seq<Seq<ValueView>> {
    v.map_values(|a: Vec<QueryValue>| vals(a@))
}

pub open spec fn group_view(g: (Vec<QueryValue>, Vec<Vec<QueryValue>>)) -> GroupView {
    (vals(g.0@), arg_rows(g.1@))
}

pub open spec fn groups_view(gs: Seq<(Vec<QueryValue>, Vec<Vec<QueryValue>>)>) -> Seq<GroupView> {
    gs.map_values(|g: (Vec<QueryValue>, Vec<Vec<QueryValue>>)| group_view(g))
}

/// The debug text of a key tuple (see [`key_text`]).
pub fn key_debug_text(key: &Vec<QueryValue>) -> (s: String)
    ensures
        s@ == key_text(vals(key@)),
{
    let mut s = String::from_str("[");
    let ghost open = s@;
    let mut i: usize = 0;
    proof {
        assert(vals(key@.take(0)) =~= Seq::<ValueView>::empty());
        assert(s@ =~= open + joined_debug(vals(key@.take(0))));
    }
    while i < key.len()
        invariant
            i <= key@.len(),
            open == "["@,
            s@ == open + joined_debug(vals(key@.take(i as int))),
        decreases key@.len() - i,
    {
        let ghost before = s@;
        if i > 0 {
            s.append(", ");
        }
        append_value_debug(&mut s, &key[i]);
        proof {
            let t = vals(key@.take(i as int + 1));
            assert(t.drop_last() =~= vals(key@.take(i as int)));
            assert(t.last() == key@[i as int]@);
            assert(t.len() == i + 1);
            if i == 0 {
                assert(t =~= seq![key@[0]@]);
                assert(s@ =~= open + joined_debug(t));
            } else {
                assert(s@ =~= open + (joined_debug(t.drop_last()) + ", "@ + value_debug(t.last())));
            }
        }
        i = i + 1;
    }
    proof {
        assert(key@.take(key@.len() as int) =~= key@);
    }
    s.append("]");
    s
}

/// Whether `a` sorts before `b` (see [`text_before`]).
pub fn text_sorts_before(a: &str, b: &str) -> (r: bool)
    ensures
        r == text_before(a@, b@),
{
    let n = a.unicode_len();
    let m = b.unicode_len();
    let mut i: usize = 0;
    proof {
        assert(a@.skip(0) =~= a@);
        assert(b@.skip(0) =~= b@);
    }
    while i < n && i < m
        invariant
            n == a@.len(),
            m == b@.len(),
            i <= n,
            i <= m,
            text_before(a@, b@) == text_before(a@.skip(i as int), b@.skip(i as int)),
        decreases n - i,
    {
        let x = a.get_char(i);
        let y = b.get_char(i);
        proof {
            assert(a@.skip(i as int)[0] == x);
            assert(b@.skip(i as int)[0] == y);
            assert(a@.skip(i as int).drop_first() =~= a@.skip(i as int + 1));
            assert(b@.skip(i as int).drop_first() =~= b@.skip(i as int + 1));
        }
        if x != y {
            let xc = x as u32;
            let yc = y as u32;
            proof {
                assert(xc as int == x as int);
                assert(yc as int == y as int);
            }
            return xc < yc;
        }
        i = i + 1;
    }
    i == n && i < m
}

fn copy_values(v: &Vec<QueryValue>) -> (r: Vec<QueryValue>)
    ensures
        vals(r@) == vals(v@),
{
    let mut out: Vec<QueryValue> = Vec::new();
    let mut i: usize = 0;
    while i < v.len()
        invariant
            i <= v@.len(),
            vals(out@) == vals(v@.take(i as int)),
        decreases v@.len() - i,
    {
        let ghost before = out@;
        out.push(copy_value(&v[i]));
        proof {
            assert(vals(out@) =~= vals(before).push(v@[i as int]@));
            assert(v@.take(i as int + 1) =~= v@.take(i as int).push(v@[i as int]));
            assert(vals(v@.take(i as int + 1)) =~= vals(v@.take(i as int)).push(v@[i as int]@));
        }
        i = i + 1;
    }
    proof {
        assert(v@.take(v@.len() as int) =~= v@);
    }
    out
}

/// A row passes the first `i` groups when their key texts differ from its
/// and do not sort after it.
proof fn lemma_add_row_prefix(gs: Seq<GroupView>, i: int, key: Seq<ValueView>, args: Seq<ValueView>)
    requires
        0 <= i <= gs.len(),
        forall|j: int|
            0 <= j < i ==> key_text(#[trigger] gs[j].0) != key_text(key) && !text_before(key_text(key), key_text(gs[j].0)),
    ensures
        add_row(gs, key, args) == gs.take(i) + add_row(gs.skip(i), key, args),
    decreases i,
{
    if i == 0 {
        assert(gs.skip(0) =~= gs);
        assert(gs.take(0) + add_row(gs, key, args) =~= add_row(gs, key, args));
    } else {
        let t = gs.drop_first();
        assert(key_text(gs[0].0) != key_text(key));
        assert forall|j: int| 0 <= j < i - 1 implies key_text(#[trigger] t[j].0) != key_text(key) && !text_before(
            key_text(key),
            key_text(t[j].0),
        ) by {
            assert(t[j] == gs[j + 1]);
        }
        lemma_add_row_prefix(t, i - 1, key, args);
        assert(t.skip(i - 1) =~= gs.skip(i));
        assert(seq![gs[0]] + t.take(i - 1) =~= gs.take(i));
        assert(add_row(gs, key, args) == seq![gs[0]] + add_row(t, key, args));
        assert(seq![gs[0]] + (t.take(i - 1) + add_row(gs.skip(i), key, args)) =~= gs.take(i) + add_row(
            gs.skip(i),
            key,
            args,
        ));
    }
}

/// Adds one row to the groups (see [`add_row`]).
fn add_row_to(groups: &mut Vec<(Vec<QueryValue>, Vec<Vec<QueryValue>>)>, key: Vec<QueryValue>, args: Vec<QueryValue>)
    ensures
        groups_view(final(groups)@) == add_row(groups_view(old(groups)@), vals(key@), vals(args@)),
{
    let ghost gv = groups_view(groups@);
    let ghost kv = vals(key@);
    let ghost av = vals(args@);
    let kt = key_debug_text(&key);
    let mut i: usize = 0;
    while i < groups.len()
        invariant
            i <= groups@.len(),
            groups@ == old(groups)@,
            gv == groups_view(groups@),
            kv == vals(key@),
            av == vals(args@),
            kt@ == key_text(kv),
            forall|j: int|
                0 <= j < i ==> key_text(#[trigger] gv[j].0) != key_text(kv) && !text_before(key_text(kv), key_text(gv[j].0)),
        decreases groups@.len() - i,
    {
        let gt = key_debug_text(&groups[i].0);
        proof {
            assert(gv[i as int] == group_view(groups@[i as int]));
        }
        if same_text(gt.as_str(), kt.as_str()) {
            proof {
                lemma_add_row_prefix(gv, i as int, kv, av);
                assert(gv.skip(i as int)[0] == gv[i as int]);
            }
            let (k, mut rows) = groups.remove(i);
            let ghost old_rows = rows@;
            proof {
                assert(group_view((k, rows)) == gv[i as int]);
            }
            rows.push(args);
            let ghost entry = (k, rows);
            proof {
                assert(rows@ =~= old_rows.push(args));
                let n = old_rows.len() as int;
                assert(rows@[n] == args);
                assert(arg_rows(rows@)[n] == vals(args@));
                assert forall|j: int| 0 <= j < n implies #[trigger] arg_rows(rows@)[j] == arg_rows(old_rows)[j] by {
                    assert(rows@[j] == old_rows[j]);
                }
                assert(arg_rows(rows@) =~= arg_rows(old_rows).push(av));
                assert(group_view(entry) == (gv[i as int].0, gv[i as int].1.push(av)));
            }
            groups.insert(i, (k, rows));
            proof {
                assert(groups@[i as int] == entry);
                assert(groups_view(groups@) =~= gv.take(i as int) + gv.skip(i as int).update(
                    0,
                    (gv[i as int].0, gv[i as int].1.push(av)),
                ));
            }
            return;
        }
        if text_sorts_before(kt.as_str(), gt.as_str()) {
            proof {
                lemma_add_row_prefix(gv, i as int, kv, av);
                assert(gv.skip(i as int)[0] == gv[i as int]);
            }
            let mut first: Vec<Vec<QueryValue>> = Vec::new();
            first.push(args);
            groups.insert(i, (key, first));
            proof {
                assert(group_view(groups@[i as int]) =~= (kv, seq![av]));
                assert(groups_view(groups@) =~= gv.take(i as int) + (seq![(kv, seq![av])] + gv.skip(i as int)));
            }
            return;
        }
        i = i + 1;
    }
    proof {
        lemma_add_row_prefix(gv, i as int, kv, av);
        assert(gv.skip(i as int) =~= Seq::<GroupView>::empty());
        assert(gv.take(i as int) =~= gv);
    }
    let mut first: Vec<Vec<QueryValue>> = Vec::new();
    first.push(args);
    groups.push((key, first));
    proof {
        assert(group_view(groups@[i as int]) =~= (kv, seq![av]));
        assert(groups_view(groups@) =~= gv + seq![(kv, seq![av])]);
    }
}

/// Groups evaluated rows, each a key tuple and the aggregates' argument
/// values, for an aggregation that is `global` when it has no group keys
/// (see [`aggregation_groups`]).
pub fn group_evaluated_rows(rows: &Vec<(Vec<QueryValue>, Vec<QueryValue>)>, global: bool) -> (r: Vec<(Vec<QueryValue>, Vec<Vec<QueryValue>>)>)
    ensures
        groups_view(r@) == aggregation_groups(rows_view(rows@), global),
{
    let mut groups: Vec<(Vec<QueryValue>, Vec<Vec<QueryValue>>)> = Vec::new();
    if global && rows.len() == 0 {
        groups.push((Vec::new(), Vec::new()));
        proof {
            let g = groups@[0];
            assert(vals(g.0@) =~= Seq::<ValueView>::empty());
            assert(arg_rows(g.1@) =~= Seq::<Seq<ValueView>>::empty());
            assert(groups_view(groups@) =~= seq![(Seq::<ValueView>::empty(), Seq::<Seq<ValueView>>::empty())]);
        }
        return groups;
    }
    let ghost rv = rows_view(rows@);
    let mut i: usize = 0;
    proof {
        assert(groups_view(groups@) =~= Seq::<GroupView>::empty());
        assert(rv.take(0) =~= Seq::<(Seq<ValueView>, Seq<ValueView>)>::empty());
    }
    while i < rows.len()
        invariant
            i <= rows@.len(),
            rv == rows_view(rows@),
            groups_view(groups@) == grouped(rv.take(i as int)),
        decreases rows@.len() - i,
    {
        proof {
            let t = rv.take(i as int + 1);
            assert(t.drop_last() =~= rv.take(i as int));
            assert(t.last() == rv[i as int]);
        }
        let key = copy_values(&rows[i].0);
        let args = copy_values(&rows[i].1);
        add_row_to(&mut groups, key, args);
        i = i + 1;
    }
    proof {
        assert(rv.take(rows@.len() as int) =~= rv);
    }
    groups
}

/// The groups' key texts strictly ascend.
pub open spec fn keys_ascending(gs: Seq<GroupView>) -> bool {
    forall|i: int, j: int| 0 <= i < j < gs.len() ==> text_before(key_text(#[trigger] gs[i].0), key_text(#[trigger] gs[j].0))
}

proof fn lemma_text_before_total(a: Seq<char>, b: Seq<char>)
    ensures
        a != b ==> text_before(a, b) || text_before(b, a),
        !(text_before(a, b) && text_before(b, a)),
        !text_before(a, a),
    decreases a.len(),
{
    if a.len() > 0 && b.len() > 0 {
        lemma_text_before_total(a.drop_first(), b.drop_first());
        if a[0] == b[0] && a != b {
            assert(a =~= seq![a[0]] + a.drop_first());
            assert(b =~= seq![b[0]] + b.drop_first());
            if a.drop_first() == b.drop_first() {
                assert(a =~= b);
            }
        } else if a[0] != b[0] {
            assert((a[0] as int) != (b[0] as int));
        }
    } else if a.len() == 0 && b.len() == 0 {
        assert(a =~= b);
    }
    if a.len() > 0 {
        lemma_text_before_total(a.drop_first(), a.drop_first());
    }
}

proof fn lemma_text_before_transitive(a: Seq<char>, b: Seq<char>, c: Seq<char>)
    requires
        text_before(a, b),
        text_before(b, c),
    ensures
        text_before(a, c),
    decreases a.len(),
{
    if a.len() > 0 && b.len() > 0 && c.len() > 0 && a[0] == b[0] && b[0] == c[0] {
        lemma_text_before_transitive(a.drop_first(), b.drop_first(), c.drop_first());
    }
}

/// Adding a row keeps the key texts ascending, and every key text it holds
/// is the row's or one the groups held.
proof fn lemma_add_row_sorted(gs: Seq<GroupView>, key: Seq<ValueView>, args: Seq<ValueView>)
    requires
        keys_ascending(gs),
    ensures
        keys_ascending(add_row(gs, key, args)),
        forall|i: int|
            0 <= i < add_row(gs, key, args).len() ==> key_text(#[trigger] add_row(gs, key, args)[i].0) == key_text(key)
                || exists|j: int| 0 <= j < gs.len() && key_text(add_row(gs, key, args)[i].0) == key_text(gs[j].0),
    decreases gs.len(),
{
    let r = add_row(gs, key, args);
    let kt = key_text(key);
    if gs.len() == 0 {
    } else if key_text(gs[0].0) == kt {
        assert forall|i: int| 0 <= i < r.len() implies exists|j: int| 0 <= j < gs.len() && key_text(#[trigger] r[i].0) == key_text(gs[j].0) by {
            assert(key_text(r[i].0) == key_text(gs[i].0));
        }
        assert forall|i: int, j: int| 0 <= i < j < r.len() implies text_before(key_text(#[trigger] r[i].0), key_text(#[trigger] r[j].0)) by {
            assert(key_text(r[i].0) == key_text(gs[i].0));
            assert(key_text(r[j].0) == key_text(gs[j].0));
        }
    } else if text_before(kt, key_text(gs[0].0)) {
        assert forall|i: int, j: int| 0 <= i < j < r.len() implies text_before(key_text(#[trigger] r[i].0), key_text(#[trigger] r[j].0)) by {
            if i == 0 {
                assert(r[j] == gs[j - 1]);
                if j > 1 {
                    assert(text_before(key_text(gs[0].0), key_text(gs[j - 1].0)));
                    lemma_text_before_transitive(kt, key_text(gs[0].0), key_text(gs[j - 1].0));
                }
            } else {
                assert(r[i] == gs[i - 1]);
                assert(r[j] == gs[j - 1]);
            }
        }
        assert forall|i: int| 0 <= i < r.len() && key_text(#[trigger] r[i].0) != kt implies exists|j: int|
            0 <= j < gs.len() && key_text(r[i].0) == key_text(gs[j].0) by {
            assert(r[i] == gs[i - 1]);
        }
    } else {
        let rest = gs.drop_first();
        assert(keys_ascending(rest)) by {
            assert forall|i: int, j: int| 0 <= i < j < rest.len() implies text_before(key_text(#[trigger] rest[i].0), key_text(#[trigger] rest[j].0)) by {
                assert(rest[i] == gs[i + 1]);
                assert(rest[j] == gs[j + 1]);
            }
        }
        lemma_add_row_sorted(rest, key, args);
        let tail = add_row(rest, key, args);
        assert(r == seq![gs[0]] + tail);
        lemma_text_before_total(key_text(gs[0].0), kt);
        assert(text_before(key_text(gs[0].0), kt));
        assert forall|i: int| 0 <= i < tail.len() implies text_before(key_text(gs[0].0), key_text(#[trigger] tail[i].0)) by {
            if key_text(tail[i].0) != kt {
                let j = choose|j: int| 0 <= j < rest.len() && key_text(tail[i].0) == key_text(rest[j].0);
                assert(rest[j] == gs[j + 1]);
            }
        }
        assert forall|i: int, j: int| 0 <= i < j < r.len() implies text_before(key_text(#[trigger] r[i].0), key_text(#[trigger] r[j].0)) by {
            assert(r[j] == tail[j - 1]);
            if i > 0 {
                assert(r[i] == tail[i - 1]);
            }
        }
        assert forall|i: int| 0 <= i < r.len() && key_text(#[trigger] r[i].0) != kt implies exists|j: int|
            0 <= j < gs.len() && key_text(r[i].0) == key_text(gs[j].0) by {
            if i == 0 {
                assert(key_text(r[0].0) == key_text(gs[0].0));
            } else {
                assert(r[i] == tail[i - 1]);
                let j = choose|j: int| 0 <= j < rest.len() && key_text(tail[i - 1].0) == key_text(rest[j].0);
                assert(rest[j] == gs[j + 1]);
            }
        }
    }
}

/// Groups come back in strictly ascending order of their key tuples' debug
/// text, so each key tuple text appears once and the order does not depend
/// on the order in which groups were first met.
pub proof fn lemma_groups_ascending(rows: Seq<(Seq<ValueView>, Seq<ValueView>)>, global: bool)
    ensures
        keys_ascending(aggregation_groups(rows, global)),
    decreases rows.len(),
{
    if rows.len() > 0 {
        lemma_groups_ascending(rows.drop_last(), false);
        lemma_add_row_sorted(grouped(rows.drop_last()), rows.last().0, rows.last().1);
    }
}

} // verus!
