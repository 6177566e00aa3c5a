//! Sort operator with elimination.
//!
//! Every operator declares its output ordering; a sort is eliminated when
//! the input's declared ordering already satisfies its leading key. When
//! sorting is required, stored values compare as the storage layer does:
//! numbers by their double-precision values, strings lexicographically,
//! missing values first in ascending order, anything else as equal; ties
//! keep input order.
//!
//! Numbers are compared through the IEEE-754 encoding, in integers: a
//! double's bit pattern with its sign folded (`-x` for negative patterns)
//! orders finite values and infinities by value, and an integer compares as
//! the double `as f64` converts it to (nearest, ties to even).
use vstd::prelude::*;
use std::cmp::Ordering;
use crate::query_planner::ir::{EntityId, FieldSegment, OrderKey, QueryValue, SortDirection, ValueView};
use crate::query_planner::lowering::{lemma_text_lt_asym, text_less, text_lt};
use crate::query_planner::traits::{stored_view, PlannerRuntime};
use crate::render::concat_num;
use super::pagination::single_batch;
use super::{
    batches_view, clock_now, context_extends, flatten_batches, flow_of, make_stat, total_rows,
    CardinalityHint, ExecContext, FlowResult, Operator, OperatorKind, OutputOrdering, RowBatch,
};

verus! {

/// 2^52: the implicit leading bit of a normal double's significand.
pub const SIGNIFICAND_LOW: u64 = 4503599627370496;

/// 2^53: one past the largest significand.
pub const SIGNIFICAND_HIGH: u64 = 9007199254740992;

/// 2^63: the sign bit of a double.
pub const SIGN_BIT: u64 = 9223372036854775808;

/// Doubles `a` until it reaches `[2^52, 2^53)`, lowering the exponent `e`
/// once per doubling.
pub open spec fn grow(a: nat, e: int) -> (nat, int)
    decreases (if a >= SIGNIFICAND_LOW { 0 } else { SIGNIFICAND_LOW - a }),
{
    if a == 0 || a >= SIGNIFICAND_LOW {
        (a, e)
    } else {
        grow(2 * a, e - 1)
    }
}

/// Halves `a` until it is below 2^53, raising the exponent `e` once per
/// halving; `round` is the last bit dropped and `sticky` whether any bit
/// below it was set.
pub open spec fn shrink(a: nat, e: int, round: bool, sticky: bool) -> (nat, int, bool, bool)
    decreases a,
{
    if a < SIGNIFICAND_HIGH {
        (a, e, round, sticky)
    } else {
        shrink(a / 2, e + 1, a % 2 == 1, sticky || round)
    }
}

/// Significand `q` in `[2^52, 2^53)` and exponent `e` of the double nearest
/// to `a >= 1` (value `q * 2^e`), rounding half to even.
pub open spec fn nearest_double(a: nat) -> (nat, int) {
    if a < SIGNIFICAND_HIGH {
        grow(a, 0)
    } else {
        let (q, e, round, sticky) = shrink(a, 0, false, false);
        if round && (sticky || q % 2 == 1) {
            if q + 1 == SIGNIFICAND_HIGH { (SIGNIFICAND_LOW as nat, e + 1) } else { ((q + 1) as nat, e) }
        } else {
            (q, e)
        }
    }
}

/// The bit pattern of the double nearest to `a` with its sign bit clear:
/// biased exponent `e + 1075` above the 52 stored significand bits.
pub open spec fn magnitude_bits(a: nat) -> int {
    if a == 0 {
        0
    } else {
        let (q, e) = nearest_double(a);
        (e + 1075) * SIGNIFICAND_LOW + (q - SIGNIFICAND_LOW)
    }
}

/// Whether a bit pattern encodes NaN (all exponent bits set, significand
/// not zero).
pub open spec fn is_nan_bits(bits: u64) -> bool {
    bits % SIGN_BIT > 0x7FF0_0000_0000_0000
}

/// Ordering key of a double's bit pattern: the magnitude bits, negated
/// when the sign bit is set (both zeros map to 0).
pub open spec fn double_key(bits: u64) -> int {
    if bits >= SIGN_BIT { -((bits - SIGN_BIT) as int) } else { bits as int }
}

/// Ordering key of the double an integer converts to.
pub open spec fn int_key(i: i64) -> int {
    if i < 0 { -magnitude_bits((-i) as nat) } else { magnitude_bits(i as nat) }
}

/// Ordering key of a number (`None` for NaN and for non-numbers).
pub open spec fn number_key(v: ValueView) -> Option<int> {
    match v {
        ValueView::Int(i) => Some(int_key(i)),
        ValueView::Float(bits) => if is_nan_bits(bits) { None } else { Some(double_key(bits)) },
        _ => None,
    }
}

/// Significand and exponent of the double nearest to `a` (see
/// [`nearest_double`]).
fn nearest_double_exec(a: u64) -> (r: (u64, i128))
    requires
        a >= 1,
    ensures
        r.0 as nat == nearest_double(a as nat).0,
        r.1 as int == nearest_double(a as nat).1,
        -SIGNIFICAND_HIGH <= r.1 <= a as int + 1,
{
    if a < SIGNIFICAND_HIGH {
        let mut q: u64 = a;
        let mut e: i128 = 0;
        while q < SIGNIFICAND_LOW
            invariant
                1 <= q < SIGNIFICAND_HIGH,
                q + e >= 1,
                e <= 0,
                grow(a as nat, 0) == grow(q as nat, e as int),
            decreases SIGNIFICAND_HIGH - q,
        {
            q = 2 * q;
            e = e - 1;
        }
        (q, e)
    } else {
        let mut q: u64 = a;
        let mut e: i128 = 0;
        let mut round = false;
        let mut sticky = false;
        while q >= SIGNIFICAND_HIGH
            invariant
                shrink(a as nat, 0, false, false) == shrink(q as nat, e as int, round, sticky),
                0 <= e <= a - q,
            decreases q,
        {
            sticky = sticky || round;
            round = q % 2 == 1;
            q = q / 2;
            e = e + 1;
        }
        if round && (sticky || q % 2 == 1) {
            if q + 1 == SIGNIFICAND_HIGH {
                (SIGNIFICAND_LOW, e + 1)
            } else {
                (q + 1, e)
            }
        } else {
            (q, e)
        }
    }
}

/// The sign-cleared bit pattern of the double nearest to `a` (see
/// [`magnitude_bits`]).
fn magnitude_bits_exec(a: u64) -> (r: i128)
    ensures
        r as int == magnitude_bits(a as nat),
        -0x1_0000_0000_0000_0000_0000_0000_0000 <= r <= 0x100_0000_0000_0000_0000_0000_0000_0000,
{
    if a == 0 {
        return 0;
    }
    let (q, e) = nearest_double_exec(a);
    (e + 1075) * 4503599627370496i128 + (q as i128 - 4503599627370496i128)
}

/// Ordering key of the double `i as f64` (see [`int_key`]).
fn int_key_exec(i: i64) -> (r: i128)
    ensures
        r as int == int_key(i),
{
    if i < 0 {
        let a: u64 = (-(i as i128)) as u64;
        -magnitude_bits_exec(a)
    } else {
        magnitude_bits_exec(i as u64)
    }
}

/// Ordering key of a number (see [`number_key`]).
pub fn number_key_exec(v: &QueryValue) -> (r: Option<i128>)
    ensures
        match r {
            Some(k) => number_key(v@) == Some(k as int),
            None => number_key(v@) is None,
        },
{
    match v {
        QueryValue::Int(i) => Some(int_key_exec(*i)),
        QueryValue::Float(bits) => {
            if *bits % SIGN_BIT > 0x7FF0_0000_0000_0000 {
                None
            } else if *bits >= SIGN_BIT {
                Some(-((*bits - SIGN_BIT) as i128))
            } else {
                Some(*bits as i128)
            }
        },
        _ => None,
    }
}

/// Numbers are the integer and double values.
pub open spec fn is_number(v: ValueView) -> bool {
    v is Int || v is Float
}

/// How `a` compares to `b`: `-1` before, `0` equal, `1` after.
pub open spec fn sign_of(a: int, b: int) -> int {
    if a < b { -1 } else if a == b { 0 } else { 1 }
}

/// How two stored values compare (`-1`, `0`, `1`): two numbers by double
/// value (a NaN compares equal to everything), two strings
/// lexicographically, a missing value before a present one, and anything
/// else as equal.
pub open spec fn stored_sign(a: Option<ValueView>, b: Option<ValueView>) -> int {
    match (a, b) {
        (Some(x), Some(y)) => if is_number(x) && is_number(y) {
            match (number_key(x), number_key(y)) {
                (Some(p), Some(q)) => sign_of(p, q),
                _ => 0,
            }
        } else {
            match (x, y) {
                (ValueView::String(s), ValueView::String(t)) => if text_lt(s, t) {
                    -1
                } else if s == t {
                    0
                } else {
                    1
                },
                _ => 0,
            }
        },
        (None, Some(_)) => -1,
        (Some(_), None) => 1,
        (None, None) => 0,
    }
}

pub(crate) fn is_number_exec(v: &QueryValue) -> (b: bool)
    ensures
        b == is_number(v@),
{
    match v {
        QueryValue::Int(_) | QueryValue::Float(_) => true,
        _ => false,
    }
}

/// Compares two stored values (see [`stored_sign`]).
pub fn stored_sign_exec(a: &Option<QueryValue>, b: &Option<QueryValue>) -> (r: i8)
    ensures
        r as int == stored_sign(stored_view(*a), stored_view(*b)),
{
    match (a, b) {
        (Some(x), Some(y)) => {
            if is_number_exec(x) && is_number_exec(y) {
                match (number_key_exec(x), number_key_exec(y)) {
                    (Some(p), Some(q)) => if p < q { -1 } else if p == q { 0 } else { 1 },
                    _ => 0,
                }
            } else {
                match (x, y) {
                    (QueryValue::String(s), QueryValue::String(t)) => {
                        if text_less(s, t) {
                            -1
                        } else if text_less(t, s) {
                            proof {
                                lemma_text_lt_asym(t@, s@);
                            }
                            1
                        } else {
                            proof {
                                crate::query_planner::lowering::lemma_text_lt_total(s@, t@);
                            }
                            0
                        }
                    },
                    _ => 0,
                }
            }
        },
        (None, Some(_)) => -1,
        (Some(_), None) => 1,
        (None, None) => 0,
    }
}

/// The ordering a comparison sign stands for.
pub open spec fn sign_ordering(s: int) -> Ordering {
    if s < 0 {
        Ordering::Less
    } else if s == 0 {
        Ordering::Equal
    } else {
        Ordering::Greater
    }
}

/// Compares two stored values (see [`stored_sign`]).
pub fn compare_stored(a: &Option<QueryValue>, b: &Option<QueryValue>) -> (r: Ordering)
    ensures
        r == sign_ordering(stored_sign(stored_view(*a), stored_view(*b))),
{
    let s = stored_sign_exec(a, b);
    if s < 0 {
        Ordering::Less
    } else if s == 0 {
        Ordering::Equal
    } else {
        Ordering::Greater
    }
}

/// `s` read in direction `d`.
pub open spec fn directed(s: int, d: SortDirection) -> int {
    match d {
        SortDirection::Asc => s,
        SortDirection::Desc => -s,
    }
}

/// The `i`-th value of a key vector; missing past its end.
pub open spec fn value_at(vals: Seq<Option<ValueView>>, i: int) -> Option<ValueView> {
    if 0 <= i < vals.len() { vals[i] } else { None }
}

/// Lexicographic comparison of key vectors from key `i` on, each key in its
/// own direction (`-1`, `0`, `1`).
pub open spec fn keys_sign_from(a: Seq<Option<ValueView>>, b: Seq<Option<ValueView>>, dirs: Seq<SortDirection>, i: int) -> int
    decreases dirs.len() - i,
{
    if i < 0 || i >= dirs.len() {
        0
    } else {
        let c = directed(stored_sign(value_at(a, i), value_at(b, i)), dirs[i]);
        if c == 0 { keys_sign_from(a, b, dirs, i + 1) } else { c }
    }
}

/// Lexicographic comparison of two rows' key vectors.
pub open spec fn keys_sign(a: Seq<Option<ValueView>>, b: Seq<Option<ValueView>>, dirs: Seq<SortDirection>) -> int {
    keys_sign_from(a, b, dirs, 0)
}

/// The directions of the keys.
pub open spec fn directions(keys: Seq<OrderKey>) -> Seq<SortDirection> {
    keys.map_values(|k: OrderKey| k.direction)
}

/// The contents of a key vector.
pub open spec fn values_view(vals: Seq<Option<QueryValue>>) -> Seq<Option<ValueView>> {
    vals.map_values(|v: Option<QueryValue>| stored_view(v))
}

proof fn lemma_signs(a: Seq<Option<ValueView>>, b: Seq<Option<ValueView>>, dirs: Seq<SortDirection>, i: int)
    ensures
        -1 <= keys_sign_from(a, b, dirs, i) <= 1,
    decreases dirs.len() - i,
{
    if 0 <= i < dirs.len() {
        lemma_signs(a, b, dirs, i + 1);
    }
}

/// Compares two rows' key vectors under `keys` (see [`keys_sign`]).
fn keys_sign_exec(a: &[Option<QueryValue>], b: &[Option<QueryValue>], keys: &[OrderKey]) -> (r: i8)
    ensures
        r as int == keys_sign(values_view(a@), values_view(b@), directions(keys@)),
{
    let ghost av = values_view(a@);
    let ghost bv = values_view(b@);
    let ghost dirs = directions(keys@);
    let missing: Option<QueryValue> = None;
    let mut i: usize = 0;
    while i < keys.len()
        invariant
            i <= keys@.len(),
            av == values_view(a@),
            bv == values_view(b@),
            dirs == directions(keys@),
            missing is None,
            keys_sign(av, bv, dirs) == keys_sign_from(av, bv, dirs, i as int),
        decreases keys@.len() - i,
    {
        let x = if i < a.len() { &a[i] } else { &missing };
        let y = if i < b.len() { &b[i] } else { &missing };
        proof {
            assert(stored_view(*x) == value_at(av, i as int));
            assert(stored_view(*y) == value_at(bv, i as int));
            assert(dirs[i as int] == keys@[i as int].direction);
        }
        let c = stored_sign_exec(x, y);
        let c: i8 = match keys[i].direction {
            SortDirection::Asc => c,
            SortDirection::Desc => -c,
        };
        if c != 0 {
            return c;
        }
        i = i + 1;
    }
    0
}

/// Compares two rows' key vectors under `keys`: the first key on which
/// they differ decides, in that key's direction.
pub fn compare_key_vectors(a: &[Option<QueryValue>], b: &[Option<QueryValue>], keys: &[OrderKey]) -> (r: Ordering)
    ensures
        r == sign_ordering(keys_sign(values_view(a@), values_view(b@), directions(keys@))),
{
    let s = keys_sign_exec(a, b, keys);
    if s < 0 {
        Ordering::Less
    } else if s == 0 {
        Ordering::Equal
    } else {
        Ordering::Greater
    }
}

/// Row positions `order` with row `x` placed after every row that does not
/// sort after it: scanning from the end, `x` moves before each row that
/// sorts strictly after it.
pub open spec fn insert_position(order: Seq<int>, x: int, vals: Seq<Seq<Option<ValueView>>>, dirs: Seq<SortDirection>) -> Seq<int>
    decreases order.len(),
{
    if order.len() == 0 || keys_sign(vals[order.last()], vals[x], dirs) <= 0 {
        order.push(x)
    } else {
        insert_position(order.drop_last(), x, vals, dirs).push(order.last())
    }
}

/// The positions `0 .. n` in stable sorted order of their key vectors:
/// each row inserted in turn (see [`insert_position`]).
pub open spec fn sorted_positions(n: nat, vals: Seq<Seq<Option<ValueView>>>, dirs: Seq<SortDirection>) -> Seq<int>
    decreases n,
{
    if n == 0 {
        Seq::empty()
    } else {
        insert_position(sorted_positions((n - 1) as nat, vals, dirs), n - 1, vals, dirs)
    }
}

/// The key vectors of all rows.
pub open spec fn rows_view(vals: Seq<Vec<Option<QueryValue>>>) -> Seq<Seq<Option<ValueView>>> {
    vals.map_values(|r: Vec<Option<QueryValue>>| values_view(r@))
}

/// Inserting keeps every position and adds `x`.
proof fn lemma_insert_position(order: Seq<int>, x: int, vals: Seq<Seq<Option<ValueView>>>, dirs: Seq<SortDirection>)
    ensures
        insert_position(order, x, vals, dirs).to_multiset() == order.to_multiset().insert(x),
        insert_position(order, x, vals, dirs).len() == order.len() + 1,
    decreases order.len(),
{
    broadcast use vstd::multiset::group_multiset_axioms, vstd::seq_lib::group_to_multiset_ensures;
    if order.len() == 0 || keys_sign(vals[order.last()], vals[x], dirs) <= 0 {
    } else {
        lemma_insert_position(order.drop_last(), x, vals, dirs);
        assert(order.drop_last().push(order.last()) =~= order);
        assert(order.to_multiset() =~= order.drop_last().to_multiset().insert(order.last()));
        assert(insert_position(order, x, vals, dirs).to_multiset()
            =~= insert_position(order.drop_last(), x, vals, dirs).to_multiset().insert(order.last()));
    }
}

/// Sorting yields each position below `n` exactly once.
pub proof fn lemma_sorted_positions_permute(n: nat, vals: Seq<Seq<Option<ValueView>>>, dirs: Seq<SortDirection>)
    ensures
        sorted_positions(n, vals, dirs).len() == n,
        forall|k: int| 0 <= k < n ==> #[trigger] sorted_positions(n, vals, dirs).to_multiset().count(k) == 1,
        forall|k: int| 0 <= k < n ==> 0 <= #[trigger] sorted_positions(n, vals, dirs)[k] < n,
    decreases n,
{
    broadcast use vstd::multiset::group_multiset_axioms, vstd::seq_lib::group_to_multiset_ensures;
    if n > 0 {
        let prev = sorted_positions((n - 1) as nat, vals, dirs);
        lemma_sorted_positions_permute((n - 1) as nat, vals, dirs);
        lemma_insert_position(prev, n - 1, vals, dirs);
        let cur = sorted_positions(n, vals, dirs);
        assert forall|k: int| 0 <= k < n implies #[trigger] cur.to_multiset().count(k) == 1 by {
            if k < n - 1 {
                assert(prev.to_multiset().count(k) == 1);
                assert(prev.to_multiset().count(n - 1) == 0) by {
                    if prev.to_multiset().count(n - 1) > 0 {
                        assert(prev.contains(n - 1));
                        let j = choose|j: int| 0 <= j < prev.len() && prev[j] == n - 1;
                        assert(0 <= prev[j] < n - 1);
                    }
                }
            } else {
                assert(prev.to_multiset().count(n - 1) == 0) by {
                    if prev.to_multiset().count(n - 1) > 0 {
                        assert(prev.contains(n - 1));
                        let j = choose|j: int| 0 <= j < prev.len() && prev[j] == n - 1;
                        assert(0 <= prev[j] < n - 1);
                    }
                }
            }
        }
        assert forall|k: int| 0 <= k < n implies 0 <= #[trigger] cur[k] < n by {
            assert(cur.to_multiset().count(cur[k]) > 0);
            if cur[k] != n - 1 {
                assert(prev.to_multiset().count(cur[k]) > 0);
                assert(prev.contains(cur[k]));
                let j = choose|j: int| 0 <= j < prev.len() && prev[j] == cur[k];
                assert(0 <= prev[j] < n - 1);
            }
        }
    }
}

/// The positions of `order` as integers.
pub open spec fn positions(order: Seq<usize>) -> Seq<int> {
    order.map_values(|k: usize| k as int)
}

/// Positions `0 .. vals.len()` in stable sorted order of their key vectors
/// (see [`sorted_positions`]).
pub fn stable_order(vals: &Vec<Vec<Option<QueryValue>>>, keys: &[OrderKey]) -> (order: Vec<usize>)
    ensures
        positions(order@) == sorted_positions(vals@.len() as nat, rows_view(vals@), directions(keys@)),
{
    let ghost rv = rows_view(vals@);
    let ghost dirs = directions(keys@);
    let mut order: Vec<usize> = Vec::new();
    let mut n: usize = 0;
    proof {
        assert(positions(order@) =~= Seq::<int>::empty());
    }
    while n < vals.len()
        invariant
            n <= vals@.len(),
            rv == rows_view(vals@),
            dirs == directions(keys@),
            positions(order@) == sorted_positions(n as nat, rv, dirs),
        decreases vals@.len() - n,
    {
        let ghost sp = sorted_positions(n as nat, rv, dirs);
        proof {
            lemma_sorted_positions_permute(n as nat, rv, dirs);
        }
        order.push(n);
        let mut j: usize = order.len() - 1;
        proof {
            assert(positions(order@) =~= sp.take(j as int) + seq![n as int] + sp.skip(j as int));
            assert forall|k: int| 0 <= k < order@.len() implies #[trigger] order@[k] <= n by {
                if k < n {
                    assert(positions(order@)[k] == sp[k]);
                }
            }
            assert(sp.take(j as int) =~= sp);
            assert(sp.skip(j as int) =~= Seq::<int>::empty());
            assert(insert_position(sp, n as int, rv, dirs) =~= insert_position(sp.take(j as int), n as int, rv, dirs) + sp.skip(j as int));
        }
        while j > 0 && keys_sign_exec(vals[order[j - 1]].as_slice(), vals[n].as_slice(), keys) > 0
            invariant
                j <= sp.len(),
                sp.len() == n,
                n < vals@.len(),
                order@.len() == n + 1,
                forall|k: int| 0 <= k < order@.len() ==> #[trigger] order@[k] <= n,
                rv == rows_view(vals@),
                dirs == directions(keys@),
                forall|k: int| 0 <= k < n ==> 0 <= #[trigger] sp[k] < n,
                positions(order@) == sp.take(j as int) + seq![n as int] + sp.skip(j as int),
                insert_position(sp, n as int, rv, dirs) == insert_position(sp.take(j as int), n as int, rv, dirs) + sp.skip(j as int),
            decreases j,
        {
            proof {
                assert(positions(order@)[j - 1] == sp[j - 1]);
                assert(order@[j - 1] as int == sp[j - 1]);
                assert(rv[sp[j - 1]] == values_view(vals@[order@[j - 1] as int]@));
                assert(rv[n as int] == values_view(vals@[n as int]@));
                let t = sp.take(j as int);
                assert(t.drop_last() =~= sp.take(j - 1));
                assert(t.last() == sp[j - 1]);
                assert(insert_position(t, n as int, rv, dirs) == insert_position(sp.take(j - 1), n as int, rv, dirs).push(sp[j - 1]));
                assert(sp.skip(j - 1) =~= seq![sp[j - 1]] + sp.skip(j as int));
                assert(insert_position(sp.take(j - 1), n as int, rv, dirs).push(sp[j - 1]) + sp.skip(j as int)
                    =~= insert_position(sp.take(j - 1), n as int, rv, dirs) + sp.skip(j - 1));
            }
            let ghost before = positions(order@);
            let prev = order[j - 1];
            order[j] = prev;
            order[j - 1] = n;
            proof {
                assert(positions(order@) =~= before.update(j as int, sp[j - 1]).update(j - 1, n as int));
                assert(positions(order@) =~= sp.take(j - 1) + seq![n as int] + sp.skip(j - 1));
            }
            j = j - 1;
        }
        proof {
            if j == 0 {
                assert(sp.take(0) =~= Seq::<int>::empty());
                assert(insert_position(sp.take(0), n as int, rv, dirs) =~= seq![n as int]);
            } else {
                assert(positions(order@)[j - 1] == sp[j - 1]);
                assert(rv[sp[j - 1]] == values_view(vals@[order@[j - 1] as int]@));
                let t = sp.take(j as int);
                assert(t.last() == sp[j - 1]);
                assert(insert_position(t, n as int, rv, dirs) == t.push(n as int));
            }
            assert(positions(order@) =~= insert_position(sp, n as int, rv, dirs));
        }
        n = n + 1;
    }
    order
}

/// The field a sort key reads: its path's first segment, when that names a
/// field.
pub open spec fn key_field(k: OrderKey) -> Option<Seq<char>> {
    if k.path.segments@.len() > 0 {
        match k.path.segments@[0] {
            FieldSegment::Field(name) => Some(name@),
            FieldSegment::Index(_) => None,
        }
    } else {
        None
    }
}

pub(crate) fn key_field_exec(k: &OrderKey) -> (r: Option<&str>)
    ensures
        match r {
            Some(f) => key_field(*k) == Some(f@),
            None => key_field(*k) is None,
        },
{
    if k.path.segments.len() > 0 {
        match &k.path.segments[0] {
            FieldSegment::Field(name) => Some(name.as_str()),
            FieldSegment::Index(_) => None,
        }
    } else {
        None
    }
}

/// The stored values a row is sorted by, one per key (missing where the key
/// names no field or the row stores nothing there).
pub open spec fn row_values<R: PlannerRuntime>(rt: &R, id: EntityId, keys: Seq<OrderKey>) -> Seq<Option<ValueView>> {
    keys.map_values(|k: OrderKey| match key_field(k) {
        Some(f) => rt.spec_stored_field(id, f),
        None => None,
    })
}

/// `rows` in stable sorted order of their stored key values.
pub open spec fn sorted_rows<R: PlannerRuntime>(rt: &R, rows: Seq<EntityId>, keys: Seq<OrderKey>) -> Seq<EntityId> {
    sorted_positions(rows.len(), Seq::new(rows.len(), |i: int| row_values(rt, rows[i], keys)), directions(keys))
        .map_values(|k: int| rows[k])
}

/// The stored values row `id` is sorted by (see [`row_values`]).
fn row_key_values<R: PlannerRuntime>(rt: &R, id: &EntityId, keys: &Vec<OrderKey>) -> (r: Vec<Option<QueryValue>>)
    ensures
        values_view(r@) == row_values(rt, *id, keys@),
{
    let mut out: Vec<Option<QueryValue>> = Vec::new();
    let mut i: usize = 0;
    while i < keys.len()
        invariant
            i <= keys@.len(),
            values_view(out@) == row_values(rt, *id, keys@.take(i as int)),
        decreases keys@.len() - i,
    {
        let v = match key_field_exec(&keys[i]) {
            Some(f) => rt.stored_field(id, f),
            None => None,
        };
        let ghost before = out@;
        out.push(v);
        proof {
            assert(values_view(out@) =~= values_view(before).push(stored_view(v)));
            assert(row_values(rt, *id, keys@.take(i as int + 1)) =~= row_values(rt, *id, keys@.take(i as int)).push(stored_view(v)));
        }
        i = i + 1;
    }
    proof {
        assert(keys@.take(keys@.len() as int) =~= keys@);
    }
    out
}

/// One key as rendered in explain output: its field and direction.
pub open spec fn key_text(k: OrderKey) -> Seq<char> {
    (match key_field(k) {
        Some(f) => f,
        None => Seq::empty(),
    }) + match k.direction {
        SortDirection::Asc => " asc"@,
        SortDirection::Desc => " desc"@,
    }
}

/// The keys rendered and joined with `", "`.
pub open spec fn keys_text(keys: Seq<OrderKey>) -> Seq<char>
    decreases keys.len(),
{
    if keys.len() == 0 {
        Seq::empty()
    } else if keys.len() == 1 {
        key_text(keys[0])
    } else {
        keys_text(keys.drop_last()) + ", "@ + key_text(keys.last())
    }
}

/// The keys rendered for explain output (see [`keys_text`]).
pub fn describe_keys(keys: &[OrderKey]) -> (s: String)
    ensures
        s@ == keys_text(keys@),
{
    let mut s = String::new();
    let mut i: usize = 0;
    while i < keys.len()
        invariant
            i <= keys@.len(),
            s@ == keys_text(keys@.take(i as int)),
        decreases keys@.len() - i,
    {
        proof {
            assert(keys@.take(i as int + 1).drop_last() =~= keys@.take(i as int));
            assert(keys@.take(i as int + 1).last() == keys@[i as int]);
            if i == 0 {
                assert(keys@.take(1)[0] == keys@[0]);
            }
        }
        if i > 0 {
            s.append(", ");
        }
        if let Some(f) = key_field_exec(&keys[i]) {
            s.append(f);
        }
        match keys[i].direction {
            SortDirection::Asc => s.append(" asc"),
            SortDirection::Desc => s.append(" desc"),
        }
        proof {
            reveal_strlit(", ");
            reveal_strlit(" asc");
            reveal_strlit(" desc");
        }
        i = i + 1;
    }
    proof {
        assert(keys@.take(keys@.len() as int) =~= keys@);
    }
    s
}

/// Sorts its input's rows by the requested keys into one batch, unless the
/// input already declares an ordering that covers the leading key; then it
/// passes the input through unchanged.
pub struct SortOperator {
    pub input: Box<Operator>,
    pub keys: Vec<OrderKey>,
}

impl SortOperator {
    pub fn new(input: Box<Operator>, keys: Vec<OrderKey>) -> (r: Self)
        ensures
            r.input == input,
            r.keys == keys,
    {
        SortOperator { input, keys }
    }

    pub fn boxed(input: Box<Operator>, keys: Vec<OrderKey>) -> (r: Box<Operator>)
        ensures
            *r == Operator::Sort((SortOperator { input, keys })),
    {
        Box::new(Operator::Sort(SortOperator { input, keys }))
    }

    /// The sort is a passthrough: there are keys, and the input's declared
    /// ordering covers the leading one.
    pub open spec fn is_eliminated(self) -> bool {
        self.keys@.len() > 0 && self.input.spec_ordering().covers(self.keys@[0])
    }

    pub fn eliminated(&self) -> (b: bool)
        ensures
            b == self.is_eliminated(),
    {
        self.keys.len() > 0 && self.input.output_ordering().satisfies_all(self.keys.as_slice())
    }

    /// Ordering declared downstream: by the leading key's field when it
    /// names one, otherwise the input's.
    pub open spec fn declared_ordering(self) -> OutputOrdering
        decreases self, 1int,
    {
        if self.keys@.len() > 0 && self.keys@[0].path.segments@.len() > 0 {
            match self.keys@[0].path.segments@[0] {
                FieldSegment::Field(name) => OutputOrdering::Sorted { field: name, direction: self.keys@[0].direction },
                FieldSegment::Index(_) => self.input.spec_ordering(),
            }
        } else {
            self.input.spec_ordering()
        }
    }

    pub fn kind(&self) -> (k: OperatorKind)
        ensures
            k == OperatorKind::Sort,
    {
        OperatorKind::Sort
    }

    /// The explain detail line.
    pub open spec fn describe(self) -> Seq<char> {
        "sort("@ + keys_text(self.keys@) + ")"@
    }

    pub fn detail(&self) -> (s: String)
        ensures
            s@ == self.describe(),
    {
        let mut s = String::from_str("sort(");
        let k = describe_keys(self.keys.as_slice());
        s.append(k.as_str());
        s.append(")");
        proof {
            reveal_strlit("sort(");
            reveal_strlit(")");
        }
        s
    }

    pub fn cardinality(&self) -> (c: CardinalityHint)
        ensures
            c == self.input.spec_cardinality(),
        decreases self,
    {
        self.input.cardinality()
    }

    pub fn output_ordering(&self) -> (o: OutputOrdering)
        ensures
            o == self.declared_ordering(),
        decreases self,
    {
        if self.keys.len() > 0 && self.keys[0].path.segments.len() > 0 {
            match &self.keys[0].path.segments[0] {
                FieldSegment::Field(name) => OutputOrdering::Sorted { field: name.clone(), direction: self.keys[0].direction },
                FieldSegment::Index(_) => self.input.output_ordering(),
            }
        } else {
            self.input.output_ordering()
        }
    }

    pub fn execute<R: PlannerRuntime>(&self, ctx: &mut ExecContext<R>) -> (r: FlowResult<Vec<RowBatch>>)
        ensures
            flow_of(r) == Operator::Sort(*self).spec_execute(old(ctx).spec_runtime(), old(ctx).spec_depth()),
            context_extends(*old(ctx), *final(ctx)),
        decreases self,
    {
        let start = clock_now();
        let batches = match self.input.execute(ctx) {
            FlowResult::Rows(b) => b,
            FlowResult::Break => return FlowResult::Break,
            FlowResult::Continue => return FlowResult::Continue,
            FlowResult::Error(e) => return FlowResult::Error(e),
        };
        if self.eliminated() {
            let n = total_rows(&batches);
            let mut notes: Vec<String> = Vec::new();
            let mut note = String::from_str("sort eliminated: input already ordered by ");
            let k = describe_keys(self.keys.as_slice());
            note.append(k.as_str());
            notes.push(note);
            ctx.record(make_stat("sort", self.detail(), n, n, &start, notes));
            return FlowResult::Rows(batches);
        }
        let rows = flatten_batches(batches);
        let rows_in = rows.len();
        let ghost rt = ctx.spec_runtime();
        let ghost want = Seq::new(rows@.len(), |i: int| row_values(rt, rows@[i], self.keys@));
        let mut vals: Vec<Vec<Option<QueryValue>>> = Vec::new();
        let mut i: usize = 0;
        while i < rows.len()
            invariant
                i <= rows@.len(),
                rt == ctx.spec_runtime(),
                want == Seq::new(rows@.len(), |i: int| row_values(rt, rows@[i], self.keys@)),
                vals@.len() == i,
                forall|j: int| 0 <= j < i ==> values_view((#[trigger] vals@[j])@) == want[j],
            decreases rows@.len() - i,
        {
            let v = row_key_values(ctx.runtime(), &rows[i], &self.keys);
            vals.push(v);
            i = i + 1;
        }
        proof {
            assert(rows_view(vals@) =~= want);
        }
        let order = stable_order(&vals, self.keys.as_slice());
        let ghost sp = sorted_positions(rows@.len() as nat, want, directions(self.keys@));
        proof {
            lemma_sorted_positions_permute(rows@.len() as nat, want, directions(self.keys@));
        }
        let mut out: Vec<EntityId> = Vec::new();
        let mut k: usize = 0;
        while k < order.len()
            invariant
                k <= order@.len(),
                positions(order@) == sp,
                sp.len() == rows@.len(),
                forall|j: int| 0 <= j < sp.len() ==> 0 <= #[trigger] sp[j] < rows@.len(),
                out@ == sp.take(k as int).map_values(|p: int| rows@[p]),
            decreases order@.len() - k,
        {
            proof {
                assert(order@[k as int] as int == sp[k as int]);
            }
            let row = rows[order[k]].duplicate();
            let ghost before = out@;
            out.push(row);
            proof {
                assert(sp.take(k as int + 1).map_values(|p: int| rows@[p])
                    =~= sp.take(k as int).map_values(|p: int| rows@[p]).push(rows@[sp[k as int]]));
            }
            k = k + 1;
        }
        proof {
            assert(sp.take(sp.len() as int) =~= sp);
        }
        let rows_out = out.len();
        let mut notes: Vec<String> = Vec::new();
        notes.push(concat_num("sorted ", rows_out as u64, " rows"));
        ctx.record(make_stat("sort", self.detail(), rows_in, rows_out, &start, notes));
        FlowResult::Rows(single_batch(out))
    }
}

/// Swapping the operands of a comparison flips its sign.
pub proof fn lemma_stored_sign_antisymmetric(a: Option<ValueView>, b: Option<ValueView>)
    ensures
        stored_sign(a, b) == -stored_sign(b, a),
{
    match (a, b) {
        (Some(ValueView::String(s)), Some(ValueView::String(t))) => {
            lemma_text_lt_asym(s, t);
            lemma_text_lt_asym(t, s);
            crate::query_planner::lowering::lemma_text_lt_total(s, t);
        },
        _ => {},
    }
}

proof fn lemma_keys_sign_antisymmetric(a: Seq<Option<ValueView>>, b: Seq<Option<ValueView>>, dirs: Seq<SortDirection>, i: int)
    ensures
        keys_sign_from(a, b, dirs, i) == -keys_sign_from(b, a, dirs, i),
    decreases dirs.len() - i,
{
    if 0 <= i < dirs.len() {
        lemma_stored_sign_antisymmetric(value_at(a, i), value_at(b, i));
        lemma_keys_sign_antisymmetric(a, b, dirs, i + 1);
    }
}

/// No row of `order` sorts strictly after the row following it.
pub open spec fn adjacent_sorted(order: Seq<int>, vals: Seq<Seq<Option<ValueView>>>, dirs: Seq<SortDirection>) -> bool {
    forall|i: int| 0 <= i < order.len() - 1 ==> keys_sign(vals[#[trigger] order[i]], vals[order[i + 1]], dirs) <= 0
}

proof fn lemma_insert_keeps_sorted(order: Seq<int>, x: int, vals: Seq<Seq<Option<ValueView>>>, dirs: Seq<SortDirection>)
    requires
        adjacent_sorted(order, vals, dirs),
    ensures
        adjacent_sorted(insert_position(order, x, vals, dirs), vals, dirs),
        insert_position(order, x, vals, dirs).last() == x
            || (order.len() > 0 && insert_position(order, x, vals, dirs).last() == order.last()),
        order.len() == 0 || keys_sign(vals[order.last()], vals[x], dirs) <= 0
            ==> insert_position(order, x, vals, dirs).last() == x,
    decreases order.len(),
{
    let r = insert_position(order, x, vals, dirs);
    if order.len() == 0 || keys_sign(vals[order.last()], vals[x], dirs) <= 0 {
        assert forall|i: int| 0 <= i < r.len() - 1 implies keys_sign(vals[#[trigger] r[i]], vals[r[i + 1]], dirs) <= 0 by {
            if i < order.len() - 1 {
                assert(r[i] == order[i] && r[i + 1] == order[i + 1]);
            }
        }
    } else {
        let init = order.drop_last();
        assert(adjacent_sorted(init, vals, dirs)) by {
            assert forall|i: int| 0 <= i < init.len() - 1 implies keys_sign(vals[#[trigger] init[i]], vals[init[i + 1]], dirs) <= 0 by {
                assert(init[i] == order[i] && init[i + 1] == order[i + 1]);
            }
        }
        lemma_insert_keeps_sorted(init, x, vals, dirs);
        let t = insert_position(init, x, vals, dirs);
        lemma_insert_position(init, x, vals, dirs);
        assert(keys_sign(vals[t.last()], vals[order.last()], dirs) <= 0) by {
            if t.last() == x {
                lemma_keys_sign_antisymmetric(vals[order.last()], vals[x], dirs, 0);
            } else {
                assert(init.len() > 0 && t.last() == init.last());
                assert(order[order.len() - 2] == init.last());
                assert(keys_sign(vals[order[order.len() - 2]], vals[order[order.len() - 1]], dirs) <= 0);
            }
        }
        assert forall|i: int| 0 <= i < r.len() - 1 implies keys_sign(vals[#[trigger] r[i]], vals[r[i + 1]], dirs) <= 0 by {
            if i < t.len() - 1 {
                assert(r[i] == t[i] && r[i + 1] == t[i + 1]);
            } else {
                assert(r[i] == t.last() && r[i + 1] == order.last());
            }
        }
    }
}

proof fn lemma_sorted_positions_sorted(n: nat, vals: Seq<Seq<Option<ValueView>>>, dirs: Seq<SortDirection>)
    ensures
        adjacent_sorted(sorted_positions(n, vals, dirs), vals, dirs),
    decreases n,
{
    if n > 0 {
        lemma_sorted_positions_sorted((n - 1) as nat, vals, dirs);
        lemma_insert_keeps_sorted(sorted_positions((n - 1) as nat, vals, dirs), n - 1, vals, dirs);
    }
}

/// Sorting permutes the rows: each output row is the input row at a
/// position that occurs exactly once, and no output row sorts strictly
/// after the next one.
pub proof fn lemma_sort_orders_rows<R: PlannerRuntime>(rt: &R, rows: Seq<EntityId>, keys: Seq<OrderKey>)
    ensures
        ({
            let vals = Seq::new(rows.len(), |i: int| row_values(rt, rows[i], keys));
            let out = sorted_rows(rt, rows, keys);
            &&& out.len() == rows.len()
            &&& exists|perm: Seq<int>| #![trigger perm.len()]
                    perm.len() == rows.len()
                    && (forall|k: int| 0 <= k < rows.len() ==> #[trigger] perm.to_multiset().count(k) == 1)
                    && (forall|i: int| 0 <= i < rows.len() ==> 0 <= #[trigger] perm[i] < rows.len() && out[i] == rows[perm[i]])
                    && (forall|i: int| 0 <= i < rows.len() - 1 ==> keys_sign(vals[#[trigger] perm[i]], vals[perm[i + 1]], directions(keys)) <= 0)
        }),
{
    let vals = Seq::new(rows.len(), |i: int| row_values(rt, rows[i], keys));
    let dirs = directions(keys);
    let sp = sorted_positions(rows.len(), vals, dirs);
    lemma_sorted_positions_permute(rows.len(), vals, dirs);
    lemma_sorted_positions_sorted(rows.len(), vals, dirs);
    let out = sorted_rows(rt, rows, keys);
    assert(out == sp.map_values(|k: int| rows[k]));
    assert(sp.len() == rows.len());
}

/// A sort over an input whose declared ordering covers its leading key
/// passes the input's rows through unchanged.
pub proof fn lemma_sort_eliminated<R: PlannerRuntime>(op: SortOperator, rt: &R, depth: nat)
    requires
        op.keys@.len() > 0,
        op.input.spec_ordering().covers(op.keys@[0]),
    ensures
        Operator::Sort(op).spec_execute(rt, depth) == op.input.spec_execute(rt, depth),
{
}

/// A sort declares its leading key's ordering, so a second sort whose
/// leading key reads the same field in the same direction is eliminated.
pub proof fn lemma_sort_twice_eliminated(inner: SortOperator, outer: SortOperator)
    requires
        inner.keys@.len() > 0,
        inner.keys@[0].path.segments@.len() > 0,
        inner.keys@[0].path.segments@[0] is Field,
        outer.keys@.len() > 0,
        outer.keys@[0].path.segments@.len() > 0,
        outer.keys@[0].path.segments@[0] matches FieldSegment::Field(n) && n@ == inner.keys@[0].path.segments@[0]->Field_0@,
        outer.keys@[0].direction == inner.keys@[0].direction,
        *outer.input == Operator::Sort(inner),
    ensures
        outer.is_eliminated(),
{
    let name = inner.keys@[0].path.segments@[0]->Field_0;
    let declared = OutputOrdering::Sorted { field: name, direction: inner.keys@[0].direction };
    assert(inner.declared_ordering() == declared);
    assert(Operator::Sort(inner).spec_ordering() == declared);
    assert(outer.input.spec_ordering() == declared);
    assert(declared.covers(outer.keys@[0]));
}

} // verus!
