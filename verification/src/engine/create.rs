//! Decisions of a nested create: whether an input links an existing node
//! by its `uid` (or `id`), which nested objects under relation fields must
//! be created first, and what the input's fields become once their uids
//! are known. The caller creates the nested nodes depth first in the order
//! given here, substitutes their uids, validates the result against the
//! type's rules and creates the node.
use vstd::prelude::*;
use crate::query_planner::ir::{lemma_list_view, list_view, QueryValue, ValueView};
use crate::query_planner::physical_expr::copy_value;
use crate::query_planner::operators::filter::{parse_u64, parsed_u64};
use crate::render::{decimal, decimal_string, same_text};

verus! {

/// The entries of an input object with their texts and contents.
pub open spec fn entries_view(fields: Seq<(String, QueryValue)>) -> Seq<(Seq<char>, ValueView)> {
    fields.map_values(|e: (String, QueryValue)| (e.0@, e.1@))
}

/// The value of the first entry named `name`.
pub open spec fn value_of(fields: Seq<(String, QueryValue)>, name: Seq<char>) -> Option<QueryValue>
    decreases fields.len(),
{
    if fields.len() == 0 {
        None
    } else if fields[0].0@ == name {
        Some(fields[0].1)
    } else {
        value_of(fields.drop_first(), name)
    }
}

/// The uid an input links to: its `uid` entry, else its `id` entry, when
/// that is a string holding a `u64`.
pub open spec fn link_uid(fields: Seq<(String, QueryValue)>) -> Option<u64> {
    let v = if value_of(fields, "uid"@) is Some { value_of(fields, "uid"@) } else { value_of(fields, "id"@) };
    match v {
        Some(QueryValue::String(s)) => parsed_u64(s@),
        _ => None,
    }
}

/// The nested objects one relation value holds: the value itself when it
/// is an object; the object items, in order, when it is a list.
pub open spec fn nested_in(v: Option<QueryValue>) -> Seq<Vec<(String, QueryValue)>> {
    match v {
        Some(QueryValue::Object(m)) => seq![m],
        Some(QueryValue::List(items)) => object_items(items@),
        _ => Seq::empty(),
    }
}

/// The object items of a list, in order.
pub open spec fn object_items(items: Seq<QueryValue>) -> Seq<Vec<(String, QueryValue)>>
    decreases items.len(),
{
    if items.len() == 0 {
        Seq::empty()
    } else {
        object_items(items.drop_last()) + match items.last() {
            QueryValue::Object(m) => seq![m],
            _ => Seq::empty(),
        }
    }
}

/// One nested creation: the relation it comes from, the type to create
/// and the nested input.
pub struct NestedView {
    pub relation: int,
    pub target: Seq<char>,
    pub fields: Vec<(String, QueryValue)>,
}

/// Nested inputs marked with their relation and target type.
pub open spec fn tagged(ms: Seq<Vec<(String, QueryValue)>>, relation: int, target: Seq<char>) -> Seq<NestedView> {
    ms.map_values(|m: Vec<(String, QueryValue)>| NestedView { relation, target, fields: m })
}

/// The nested creations under the relations, relation by relation.
pub open spec fn nested_creations(fields: Seq<(String, QueryValue)>, relations: Seq<(String, String)>) -> Seq<NestedView>
    decreases relations.len(),
{
    if relations.len() == 0 {
        Seq::empty()
    } else {
        let i = relations.len() - 1;
        nested_creations(fields, relations.drop_last()) + tagged(nested_in(value_of(fields, relations[i].0@)), i, relations[i].1@)
    }
}

/// The replacement a relation's value gets once its nested objects were
/// created with the uids `uids` (in order): an object becomes the uid's
/// text; a list becomes the list of the uids' texts; other values stay.
pub open spec fn replacement(v: Option<QueryValue>, uids: Seq<u64>) -> Option<ValueView> {
    match v {
        Some(QueryValue::Object(_)) => Some(ValueView::String(decimal(uids[0] as nat))),
        Some(QueryValue::List(_)) => Some(
            ValueView::List(uids.take(nested_in(v).len() as int).map_values(|u: u64| ValueView::String(decimal(u as nat)))),
        ),
        _ => None,
    }
}

/// `fvs` with the first entry named `k` holding `v`.
pub open spec fn replace_first(fvs: Seq<(Seq<char>, ValueView)>, k: Seq<char>, v: ValueView) -> Seq<(Seq<char>, ValueView)>
    decreases fvs.len(),
{
    if fvs.len() == 0 {
        fvs
    } else if fvs[0].0 == k {
        fvs.update(0, (k, v))
    } else {
        seq![fvs[0]] + replace_first(fvs.drop_first(), k, v)
    }
}

/// The input's entries after the relations' nested objects were created
/// with the uids `uids`, consumed in the order of [`nested_creations`].
pub open spec fn linked_fields(fields: Seq<(String, QueryValue)>, relations: Seq<(String, String)>, uids: Seq<u64>) -> Seq<(Seq<char>, ValueView)>
    decreases relations.len(),
{
    if relations.len() == 0 {
        entries_view(fields)
    } else {
        let i = relations.len() - 1;
        let before = linked_fields(fields, relations.drop_last(), uids);
        let used = nested_creations(fields, relations.drop_last()).len() as int;
        match replacement(value_of(fields, relations[i].0@), uids.skip(used)) {
            Some(v) => replace_first(before, relations[i].0@, v),
            None => before,
        }
    }
}

/// The value of the first entry named `name` (see [`value_of`]).
fn find_value<'a>(fields: &'a Vec<(String, QueryValue)>, name: &str) -> (r: Option<&'a QueryValue>)
    ensures
        match r {
            Some(v) => value_of(fields@, name@) == Some(*v),
            None => value_of(fields@, name@) is None,
        },
{
    let mut i: usize = 0;
    proof {
        assert(fields@.skip(0) =~= fields@);
    }
    while i < fields.len()
        invariant
            i <= fields@.len(),
            value_of(fields@, name@) == value_of(fields@.skip(i as int), name@),
        decreases fields@.len() - i,
    {
        proof {
            assert(fields@.skip(i as int).drop_first() =~= fields@.skip(i as int + 1));
            assert(fields@.skip(i as int)[0] == fields@[i as int]);
        }
        if same_text(fields[i].0.as_str(), name) {
            return Some(&fields[i].1);
        }
        i = i + 1;
    }
    None
}

/// The uid an input links to, if any (see [`link_uid`]).
pub fn linked_uid(fields: &Vec<(String, QueryValue)>) -> (r: Option<u64>)
    ensures
        r == link_uid(fields@),
{
    let v = match find_value(fields, "uid") {
        Some(v) => Some(v),
        None => find_value(fields, "id"),
    };
    match v {
        Some(QueryValue::String(s)) => parse_u64(s.as_str()),
        _ => None,
    }
}

/// A nested object to create before its parent.
#[derive(Debug)]
pub struct NestedCreate<'a> {
    /// Position of the relation in the type's relation list.
    pub relation: usize,
    /// The type to create.
    pub target: &'a String,
    /// The nested input.
    pub fields: &'a Vec<(String, QueryValue)>,
}

pub open spec fn nested_view(n: NestedCreate) -> NestedView {
    NestedView { relation: n.relation as int, target: n.target@, fields: *n.fields }
}

pub open spec fn nested_views(v: Seq<NestedCreate>) -> Seq<NestedView> {
    v.map_values(|n: NestedCreate| nested_view(n))
}

fn count_objects(items: &Vec<QueryValue>) -> (n: usize)
    ensures
        n == object_items(items@).len(),
{
    let mut n: usize = 0;
    let mut j: usize = 0;
    while j < items.len()
        invariant
            j <= items@.len(),
            n == object_items(items@.take(j as int)).len(),
            n <= j,
        decreases items@.len() - j,
    {
        proof {
            let t = items@.take(j as int + 1);
            assert(t.drop_last() =~= items@.take(j as int));
            assert(t.last() == items@[j as int]);
        }
        match &items[j] {
            QueryValue::Object(_) => {
                n = n + 1;
            },
            _ => {},
        }
        j = j + 1;
    }
    proof {
        assert(items@.take(items@.len() as int) =~= items@);
    }
    n
}

/// The nested objects to create, in order (see [`nested_creations`]).
pub fn nested_inputs<'a>(fields: &'a Vec<(String, QueryValue)>, relations: &'a Vec<(String, String)>) -> (r: Vec<NestedCreate<'a>>)
    ensures
        nested_views(r@) == nested_creations(fields@, relations@),
{
    let mut out: Vec<NestedCreate<'a>> = Vec::new();
    let mut i: usize = 0;
    proof {
        assert(relations@.take(0) =~= Seq::<(String, String)>::empty());
        assert(nested_views(out@) =~= Seq::<NestedView>::empty());
    }
    while i < relations.len()
        invariant
            i <= relations@.len(),
            nested_views(out@) == nested_creations(fields@, relations@.take(i as int)),
        decreases relations@.len() - i,
    {
        let ghost before = nested_views(out@);
        let ghost rels = relations@.take(i as int + 1);
        proof {
            assert(rels.drop_last() =~= relations@.take(i as int));
            assert(rels[i as int] == relations@[i as int]);
        }
        let target = &relations[i].1;
        let ghost v = value_of(fields@, relations@[i as int].0@);
        let ghost made = tagged(nested_in(v), i as int, relations@[i as int].1@);
        match find_value(fields, relations[i].0.as_str()) {
            Some(QueryValue::Object(m)) => {
                let ghost prev = out@;
                out.push(NestedCreate { relation: i, target, fields: m });
                proof {
                    assert(made =~= seq![NestedView { relation: i as int, target: target@, fields: *m }]);
                    assert(nested_views(out@) =~= nested_views(prev).push(NestedView { relation: i as int, target: target@, fields: *m }));
                    assert(nested_views(out@) =~= before + made);
                }
            },
            Some(QueryValue::List(items)) => {
                let mut j: usize = 0;
                while j < items.len()
                    invariant
                        j <= items@.len(),
                        nested_views(out@) == before + tagged(object_items(items@.take(j as int)), i as int, target@),
                    decreases items@.len() - j,
                {
                    let ghost prev = out@;
                    proof {
                        let t = items@.take(j as int + 1);
                        assert(t.drop_last() =~= items@.take(j as int));
                        assert(t.last() == items@[j as int]);
                    }
                    match &items[j] {
                        QueryValue::Object(m) => {
                            out.push(NestedCreate { relation: i, target, fields: m });
                            proof {
                                let nv = NestedView { relation: i as int, target: target@, fields: *m };
                                assert(nested_views(out@) =~= nested_views(prev).push(nv));
                                assert(object_items(items@.take(j as int + 1)) =~= object_items(items@.take(j as int)).push(*m));
                                assert(tagged(object_items(items@.take(j as int + 1)), i as int, target@)
                                    =~= tagged(object_items(items@.take(j as int)), i as int, target@).push(nv));
                            }
                        },
                        _ => {
                            proof {
                                assert(object_items(items@.take(j as int + 1)) =~= object_items(items@.take(j as int)));
                            }
                        },
                    }
                    j = j + 1;
                }
                proof {
                    assert(items@.take(items@.len() as int) =~= items@);
                    assert(made == tagged(object_items(items@), i as int, target@));
                }
            },
            _ => {
                proof {
                    assert(made =~= Seq::<NestedView>::empty());
                    assert(before + made =~= before);
                }
            },
        }
        i = i + 1;
    }
    proof {
        assert(relations@.take(relations@.len() as int) =~= relations@);
    }
    out
}

/// A prefix of the relations holds no more nested creations than all of them.
proof fn lemma_nested_prefix(fields: Seq<(String, QueryValue)>, rels: Seq<(String, String)>, k: int)
    requires
        0 <= k <= rels.len(),
    ensures
        nested_creations(fields, rels.take(k)).len() <= nested_creations(fields, rels).len(),
    decreases rels.len() - k,
{
    if k < rels.len() {
        lemma_nested_prefix(fields, rels, k + 1);
        let t = rels.take(k + 1);
        assert(t.drop_last() =~= rels.take(k));
    } else {
        assert(rels.take(k) =~= rels);
    }
}

/// Replacing in a table whose first `i` keys differ from `k` keeps them.
proof fn lemma_replace_prefix(fvs: Seq<(Seq<char>, ValueView)>, i: int, k: Seq<char>, v: ValueView)
    requires
        0 <= i <= fvs.len(),
        forall|j: int| 0 <= j < i ==> #[trigger] fvs[j].0 != k,
    ensures
        replace_first(fvs, k, v) == fvs.take(i) + replace_first(fvs.skip(i), k, v),
    decreases i,
{
    if i == 0 {
        assert(fvs.skip(0) =~= fvs);
        assert(fvs.take(0) + replace_first(fvs, k, v) =~= replace_first(fvs, k, v));
    } else {
        let t = fvs.drop_first();
        assert(fvs[0].0 != k);
        assert forall|j: int| 0 <= j < i - 1 implies #[trigger] t[j].0 != k by {
            assert(t[j] == fvs[j + 1]);
        }
        lemma_replace_prefix(t, i - 1, k, v);
        assert(t.skip(i - 1) =~= fvs.skip(i));
        assert(seq![fvs[0]] + t.take(i - 1) =~= fvs.take(i));
        assert(seq![fvs[0]] + (t.take(i - 1) + replace_first(fvs.skip(i), k, v)) =~= fvs.take(i) + replace_first(
            fvs.skip(i),
            k,
            v,
        ));
    }
}

/// Sets the first entry named `key` to `value` (see [`replace_first`]).
fn replace_entry(out: &mut Vec<(String, QueryValue)>, key: &str, value: QueryValue)
    ensures
        entries_view(final(out)@) == replace_first(entries_view(old(out)@), key@, value@),
{
    let ghost fv = entries_view(out@);
    let ghost vv = value@;
    let mut i: usize = 0;
    while i < out.len()
        invariant
            i <= out@.len(),
            out@ == old(out)@,
            fv == entries_view(out@),
            vv == value@,
            forall|j: int| 0 <= j < i ==> #[trigger] fv[j].0 != key@,
        decreases out@.len() - i,
    {
        if same_text(out[i].0.as_str(), key) {
            proof {
                lemma_replace_prefix(fv, i as int, key@, vv);
                assert(fv.skip(i as int)[0].0 == key@);
            }
            let name = out[i].0.clone();
            out.set(i, (name, value));
            proof {
                assert(entries_view(out@) =~= fv.take(i as int) + fv.skip(i as int).update(0, (key@, vv)));
            }
            return;
        }
        i = i + 1;
    }
    proof {
        lemma_replace_prefix(fv, i as int, key@, vv);
        assert(fv.skip(i as int) =~= Seq::<(Seq<char>, ValueView)>::empty());
        assert(fv.take(i as int) =~= fv);
    }
}

fn copy_entries(fields: &Vec<(String, QueryValue)>) -> (r: Vec<(String, QueryValue)>)
    ensures
        entries_view(r@) == entries_view(fields@),
{
    let mut out: Vec<(String, QueryValue)> = Vec::new();
    let mut i: usize = 0;
    while i < fields.len()
        invariant
            i <= fields@.len(),
            entries_view(out@) == entries_view(fields@.take(i as int)),
        decreases fields@.len() - i,
    {
        let ghost prev = out@;
        out.push((fields[i].0.clone(), copy_value(&fields[i].1)));
        proof {
            assert(entries_view(out@) =~= entries_view(prev).push((fields@[i as int].0@, fields@[i as int].1@)));
            assert(fields@.take(i as int + 1) =~= fields@.take(i as int).push(fields@[i as int]));
            assert(entries_view(fields@.take(i as int + 1)) =~= entries_view(fields@.take(i as int)).push(
                (fields@[i as int].0@, fields@[i as int].1@),
            ));
        }
        i = i + 1;
    }
    proof {
        assert(fields@.take(fields@.len() as int) =~= fields@);
    }
    out
}

/// The input's entries once the nested creations (in the order of
/// [`nested_inputs`]) produced `uids` (see [`linked_fields`]).
pub fn link_created(fields: &Vec<(String, QueryValue)>, relations: &Vec<(String, String)>, uids: &Vec<u64>) -> (r: Vec<(String, QueryValue)>)
    requires
        uids@.len() == nested_creations(fields@, relations@).len(),
    ensures
        entries_view(r@) == linked_fields(fields@, relations@, uids@),
{
    let mut out = copy_entries(fields);
    let total = uids.len();
    let mut used: usize = 0;
    let mut i: usize = 0;
    proof {
        assert(relations@.take(0) =~= Seq::<(String, String)>::empty());
    }
    while i < relations.len()
        invariant
            i <= relations@.len(),
            uids@.len() == nested_creations(fields@, relations@).len(),
            total == uids@.len(),
            entries_view(out@) == linked_fields(fields@, relations@.take(i as int), uids@),
            used == nested_creations(fields@, relations@.take(i as int)).len(),
        decreases relations@.len() - i,
    {
        let ghost rels = relations@.take(i as int + 1);
        proof {
            assert(rels.drop_last() =~= relations@.take(i as int));
            assert(rels[i as int] == relations@[i as int]);
            lemma_nested_prefix(fields@, relations@, i as int + 1);
        }
        let ghost v = value_of(fields@, relations@[i as int].0@);
        let ghost rest = uids@.skip(used as int);
        proof {
            assert(nested_creations(fields@, rels).len() == used + nested_in(v).len());
            assert(used + nested_in(v).len() <= total);
        }
        match find_value(fields, relations[i].0.as_str()) {
            Some(QueryValue::Object(_)) => {
                proof {
                    assert(nested_in(v).len() == 1);
                }
                let text = decimal_string(uids[used]);
                replace_entry(&mut out, relations[i].0.as_str(), QueryValue::String(text));
                used = used + 1;
            },
            Some(QueryValue::List(items)) => {
                let n = count_objects(items);
                let mut list: Vec<QueryValue> = Vec::new();
                let mut k: usize = 0;
                while k < n
                    invariant
                        k <= n,
                        total == uids@.len(),
                        used + n <= uids@.len(),
                        rest == uids@.skip(used as int),
                        list@.len() == k,
                        forall|q: int| 0 <= q < k ==> #[trigger] list@[q]@ == ValueView::String(decimal(rest[q] as nat)),
                    decreases n - k,
                {
                    list.push(QueryValue::String(decimal_string(uids[used + k])));
                    k = k + 1;
                }
                proof {
                    lemma_list_view(list@);
                    assert(list_view(list@) =~= rest.take(n as int).map_values(|u: u64| ValueView::String(decimal(u as nat))));
                }
                replace_entry(&mut out, relations[i].0.as_str(), QueryValue::List(list));
                used = used + n;
            },
            _ => {},
        }
        i = i + 1;
    }
    proof {
        assert(relations@.take(relations@.len() as int) =~= relations@);
    }
    out
}

/// The error of a create for a type the schema does not define.
pub fn missing_type_message(type_label: &str) -> (s: String)
    ensures
        s@ == "Type "@ + type_label@ + " not found"@,
{
    let mut s = String::from_str("Type ");
    s.append(type_label);
    s.append(" not found");
    s
}

/// `0`-`9`, `a`-`f` or `A`-`F`.
pub open spec fn is_hex_digit(c: char) -> bool {
    (48 <= c as int <= 57) || (97 <= c as int <= 102) || (65 <= c as int <= 70)
}

pub open spec fn hex_digit_value(c: char) -> int {
    if 48 <= c as int <= 57 {
        c as int - 48
    } else if 97 <= c as int <= 102 {
        c as int - 87
    } else {
        c as int - 55
    }
}

/// The value of a string of hexadecimal digits.
pub open spec fn hex_value(s: Seq<char>) -> int
    decreases s.len(),
{
    if s.len() == 0 {
        0
    } else {
        hex_value(s.drop_last()) * 16 + hex_digit_value(s.last())
    }
}

/// The digits after an optional leading `+`.
pub open spec fn signless(s: Seq<char>) -> Seq<char> {
    if s.len() > 0 && s[0] == '+' { s.drop_first() } else { s }
}

/// `s` read as a base-16 `u64` (`u64::from_str_radix(s, 16)`): an optional
/// leading `+`, then one or more hexadecimal digits whose value fits.
pub open spec fn parsed_hex_u64(s: Seq<char>) -> Option<u64> {
    let d = signless(s);
    if d.len() > 0 && (forall|i: int| 0 <= i < d.len() ==> is_hex_digit(#[trigger] d[i])) && hex_value(d) <= u64::MAX {
        Some(hex_value(d) as u64)
    } else {
        None
    }
}

/// The uid a `get` query's `uid` or `id` argument names: after `0x` a
/// hexadecimal number, otherwise a decimal one; `0` (no node) when it does
/// not read as one.
pub open spec fn argument_uid(text: Seq<char>) -> u64 {
    let r = if "0x"@.is_prefix_of(text) { parsed_hex_u64(text.skip(2)) } else { parsed_u64(text) };
    match r {
        Some(u) => u,
        None => 0,
    }
}

proof fn lemma_hex_prefix(d: Seq<char>, j: int, k: int)
    requires
        0 <= j <= k <= d.len(),
        forall|i: int| 0 <= i < d.len() ==> is_hex_digit(#[trigger] d[i]),
    ensures
        0 <= hex_value(d.take(j)) <= hex_value(d.take(k)),
    decreases k - j,
{
    if j < k {
        lemma_hex_prefix(d, j, k - 1);
        assert(d.take(k).drop_last() =~= d.take(k - 1));
        assert(d.take(k).last() == d[k - 1]);
        assert(is_hex_digit(d[k - 1]));
    } else {
        lemma_hex_nonneg(d.take(j));
    }
}

proof fn lemma_hex_nonneg(d: Seq<char>)
    requires
        forall|i: int| 0 <= i < d.len() ==> is_hex_digit(#[trigger] d[i]),
    ensures
        hex_value(d) >= 0,
    decreases d.len(),
{
    if d.len() > 0 {
        assert(is_hex_digit(d[d.len() - 1]));
        lemma_hex_nonneg(d.drop_last());
    }
}

/// Reads `s` as a base-16 `u64` (see [`parsed_hex_u64`]).
pub fn parse_hex_u64(s: &str) -> (r: Option<u64>)
    ensures
        r == parsed_hex_u64(s@),
{
    let n = s.unicode_len();
    let mut start: usize = 0;
    if n > 0 && s.get_char(0) == '+' {
        start = 1;
    }
    let ghost d = signless(s@);
    proof {
        assert(d =~= s@.skip(start as int));
    }
    if start == n {
        return None;
    }
    let mut acc: u64 = 0;
    let mut i: usize = start;
    while i < n
        invariant
            start <= i <= n,
            n == s@.len(),
            start < n,
            d == s@.skip(start as int),
            d == signless(s@),
            forall|k: int| 0 <= k < i - start ==> is_hex_digit(#[trigger] d[k]),
            acc as int == hex_value(d.take(i - start)),
        decreases n - i,
    {
        let c = s.get_char(i);
        let ghost p = (i - start) as int;
        proof {
            assert(d[p] == c);
        }
        let code = c as u32;
        proof {
            assert(code as int == c as int);
        }
        let dv: u64 = if 48 <= code && code <= 57 {
            (code - 48) as u64
        } else if 97 <= code && code <= 102 {
            (code - 87) as u64
        } else if 65 <= code && code <= 70 {
            (code - 55) as u64
        } else {
            proof {
                assert(!is_hex_digit(d[p]));
            }
            return None;
        };
        proof {
            assert(is_hex_digit(d[p]));
            assert(dv as int == hex_digit_value(c));
            assert(d.take(p + 1).drop_last() =~= d.take(p));
            assert(d.take(p + 1).last() == c);
            assert(hex_value(d.take(p + 1)) == acc * 16 + dv);
        }
        let next = match acc.checked_mul(16) {
            Some(m) => m.checked_add(dv),
            None => None,
        };
        match next {
            Some(v) => {
                acc = v;
            },
            None => {
                proof {
                    if forall|k: int| 0 <= k < d.len() ==> is_hex_digit(#[trigger] d[k]) {
                        lemma_hex_prefix(d, p + 1, d.len() as int);
                        assert(d.take(d.len() as int) =~= d);
                    }
                }
                return None;
            },
        }
        i = i + 1;
    }
    proof {
        assert(d.take(n - start) =~= d);
    }
    Some(acc)
}

/// The uid a `get` query's argument names (see [`argument_uid`]).
pub fn uid_from_argument(text: &str) -> (u: u64)
    ensures
        u == argument_uid(text@),
{
    proof {
        reveal_strlit("0x");
    }
    let r = if crate::launch::has_prefix(text, "0x") {
        let n = text.unicode_len();
        let mut rest = String::new();
        let mut i: usize = 2;
        while i < n
            invariant
                2 <= i <= n,
                n == text@.len(),
                rest@ == text@.subrange(2, i as int),
            decreases n - i,
        {
            crate::render::push_char(&mut rest, text.get_char(i));
            proof {
                assert(text@.subrange(2, i + 1) =~= text@.subrange(2, i as int).push(text@[i as int]));
            }
            i = i + 1;
        }
        proof {
            assert(rest@ =~= text@.skip(2));
        }
        parse_hex_u64(rest.as_str())
    } else {
        parse_u64(text)
    };
    match r {
        Some(u) => u,
        None => 0,
    }
}

} // verus!
