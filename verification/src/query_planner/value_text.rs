//! Debug-style rendering of values for explain lines: each variant by name
//! with its contents in brackets, strings quoted, lists in `[...]`, objects
//! as `{"key": value, ...}` in field order. A double is shown by its IEEE-754
//! bit pattern in hexadecimal.
use vstd::prelude::*;
use crate::query_planner::ir::{
    fields_view, lemma_fields_view, lemma_list_view, list_view, EntityId, QueryValue, ValueView,
};
use crate::query_planner::physical_expr::{debug_quote, quoted};
use crate::render::{append_decimal, decimal, push_char};

verus! {

/// `i` in base 10 with a leading `-` when negative.
pub open spec fn signed_decimal(i: i64) -> Seq<char> {
    if i < 0 { "-"@ + decimal((-(i as int)) as nat) } else { decimal(i as nat) }
}

/// The lowercase hexadecimal digit for `d < 16`.
pub open spec fn hex_char(d: nat) -> char {
    if d < 10 { crate::render::digit_char(d) } else if d == 10 { 'a' } else if d == 11 { 'b' } else if d == 12 { 'c' } else if d == 13 { 'd' } else if d == 14 { 'e' } else { 'f' }
}

/// The low `k` hexadecimal digits of `n`, most significant first.
pub open spec fn hex_digits(n: nat, k: nat) -> Seq<char>
    decreases k,
{
    if k == 0 { Seq::empty() } else { hex_digits(n / 16, (k - 1) as nat).push(hex_char(n % 16)) }
}

/// An entity id as its struct renders.
pub open spec fn entity_debug(e: EntityId) -> Seq<char> {
    "EntityId { type_name: "@ + match e.entity_type {
        Some(t) => "Some("@ + quoted(t@) + ")"@,
        None => "None"@,
    } + ", uid: "@ + decimal(e.uid as nat) + " }"@
}

/// The rendering of a value.
pub open spec fn value_debug(v: ValueView) -> Seq<char>
    decreases v, 1int,
{
    match v {
        ValueView::Null => "Null"@,
        ValueView::Bool(b) => if b { "Bool(true)"@ } else { "Bool(false)"@ },
        ValueView::Int(i) => "Int("@ + signed_decimal(i) + ")"@,
        ValueView::Float(bits) => "Float(0x"@ + hex_digits(bits as nat, 16) + ")"@,
        ValueView::String(s) => "String("@ + quoted(s) + ")"@,
        ValueView::Enum(s) => "Enum("@ + quoted(s) + ")"@,
        ValueView::List(items) => "List(["@ + items_debug(items) + "])"@,
        ValueView::Object(fields) => "Object({"@ + fields_debug(fields) + "})"@,
        ValueView::EntityId(e) => "EntityId("@ + entity_debug(e) + ")"@,
    }
}

/// Items rendered and joined with `", "`.
pub open spec fn items_debug(items: Seq<ValueView>) -> Seq<char>
    decreases items, 0int,
{
    if items.len() == 0 {
        Seq::empty()
    } else if items.len() == 1 {
        value_debug(items[0])
    } else {
        items_debug(items.drop_last()) + ", "@ + value_debug(items.last())
    }
}

/// Fields rendered as `"key": value` and joined with `", "`.
pub open spec fn fields_debug(fields: Seq<(Seq<char>, ValueView)>) -> Seq<char>
    decreases fields, 0int,
{
    if fields.len() == 0 {
        Seq::empty()
    } else if fields.len() == 1 {
        quoted(fields[0].0) + ": "@ + value_debug(fields[0].1)
    } else {
        fields_debug(fields.drop_last()) + ", "@ + quoted(fields.last().0) + ": "@ + value_debug(fields.last().1)
    }
}

fn hex_char_exec(d: u64) -> (c: char)
    requires
        d < 16,
    ensures
        c == hex_char(d as nat),
{
    if d < 10 {
        crate::render::digit(d)
    } else if d == 10 {
        'a'
    } else if d == 11 {
        'b'
    } else if d == 12 {
        'c'
    } else if d == 13 {
        'd'
    } else if d == 14 {
        'e'
    } else {
        'f'
    }
}

/// Appends the low `k` hexadecimal digits of `n`.
fn append_hex(s: &mut String, n: u64, k: u64)
    ensures
        final(s)@ == old(s)@ + hex_digits(n as nat, k as nat),
    decreases k,
{
    if k == 0 {
        proof {
            assert(old(s)@ + hex_digits(n as nat, 0) =~= old(s)@);
        }
        return;
    }
    append_hex(s, n / 16, k - 1);
    push_char(s, hex_char_exec(n % 16));
    proof {
        assert(final(s)@ =~= old(s)@ + hex_digits(n as nat, k as nat));
    }
}

/// Appends `i` in base 10 with its sign.
pub(crate) fn append_signed(s: &mut String, i: i64)
    ensures
        final(s)@ == old(s)@ + signed_decimal(i),
{
    if i < 0 {
        s.append("-");
        let m: u64 = (-(i as i128)) as u64;
        append_decimal(s, m);
        proof {
            reveal_strlit("-");
            assert(final(s)@ =~= old(s)@ + signed_decimal(i));
        }
    } else {
        append_decimal(s, i as u64);
    }
}

/// Appends the rendering of an entity id.
fn append_entity(s: &mut String, e: &EntityId)
    ensures
        final(s)@ == old(s)@ + entity_debug(*e),
{
    s.append("EntityId { type_name: ");
    match &e.entity_type {
        Some(t) => {
            s.append("Some(");
            let q = debug_quote(t.as_str());
            s.append(q.as_str());
            s.append(")");
        },
        None => {
            s.append("None");
        },
    }
    s.append(", uid: ");
    append_decimal(s, e.uid);
    s.append(" }");
    proof {
        reveal_strlit("EntityId { type_name: ");
        reveal_strlit("Some(");
        reveal_strlit(")");
        reveal_strlit("None");
        reveal_strlit(", uid: ");
        reveal_strlit(" }");
        assert(final(s)@ =~= old(s)@ + entity_debug(*e));
    }
}

/// Appends the rendering of `v` (see [`value_debug`]).
pub fn append_value_debug(s: &mut String, v: &QueryValue)
    ensures
        final(s)@ == old(s)@ + value_debug(v@),
    decreases v,
{
    proof {
        reveal_strlit("Null");
        reveal_strlit("Bool(true)");
        reveal_strlit("Bool(false)");
        reveal_strlit("Int(");
        reveal_strlit(")");
        reveal_strlit("Float(0x");
        reveal_strlit("String(");
        reveal_strlit("Enum(");
        reveal_strlit("List([");
        reveal_strlit("])");
        reveal_strlit("Object({");
        reveal_strlit("})");
        reveal_strlit("EntityId(");
        reveal_strlit(", ");
        reveal_strlit(": ");
    }
    match v {
        QueryValue::Null => s.append("Null"),
        QueryValue::Bool(b) => if *b { s.append("Bool(true)") } else { s.append("Bool(false)") },
        QueryValue::Int(i) => {
            s.append("Int(");
            append_signed(s, *i);
            s.append(")");
        },
        QueryValue::Float(bits) => {
            s.append("Float(0x");
            append_hex(s, *bits, 16);
            s.append(")");
        },
        QueryValue::String(t) => {
            s.append("String(");
            let q = debug_quote(t.as_str());
            s.append(q.as_str());
            s.append(")");
        },
        QueryValue::Enum(t) => {
            s.append("Enum(");
            let q = debug_quote(t.as_str());
            s.append(q.as_str());
            s.append(")");
        },
        QueryValue::EntityId(e) => {
            s.append("EntityId(");
            append_entity(s, e);
            s.append(")");
        },
        QueryValue::List(items) => {
            s.append("List([");
            let ghost start = s@;
            proof {
                lemma_list_view(items@);
            }
            let mut i: usize = 0;
            while i < items.len()
                invariant
                    *v == QueryValue::List(*items),
                    i <= items@.len(),
                    list_view(items@).len() == items@.len(),
                    forall|j: int| 0 <= j < items@.len() ==> #[trigger] list_view(items@)[j] == items@[j]@,
                    s@ == start + items_debug(list_view(items@).take(i as int)),
                decreases items@.len() - i,
            {
                proof {
                    assert(decreases_to!(*v => (*v)->List_0));
                    assert(decreases_to!(*items => items@));
                    assert(decreases_to!(items@ => items@[i as int]));
                    let t = list_view(items@).take(i as int + 1);
                    assert(t.drop_last() =~= list_view(items@).take(i as int));
                    assert(t.last() == items@[i as int]@);
                    if i == 0 {
                        assert(t[0] == items@[0]@);
                    }
                }
                if i > 0 {
                    s.append(", ");
                }
                append_value_debug(s, &items[i]);
                proof {
                    let t = list_view(items@).take(i as int + 1);
                    if i > 0 {
                        assert(s@ =~= start + items_debug(t));
                    } else {
                        assert(items_debug(list_view(items@).take(0)) =~= Seq::<char>::empty());
                        assert(s@ =~= start + items_debug(t));
                    }
                }
                i = i + 1;
            }
            proof {
                assert(list_view(items@).take(items@.len() as int) =~= list_view(items@));
            }
            s.append("])");
        },
        QueryValue::Object(fields) => {
            s.append("Object({");
            let ghost start = s@;
            proof {
                lemma_fields_view(fields@);
            }
            let mut i: usize = 0;
            while i < fields.len()
                invariant
                    *v == QueryValue::Object(*fields),
                    i <= fields@.len(),
                    fields_view(fields@).len() == fields@.len(),
                    forall|j: int| 0 <= j < fields@.len() ==> #[trigger] fields_view(fields@)[j] == (fields@[j].0@, fields@[j].1@),
                    s@ == start + fields_debug(fields_view(fields@).take(i as int)),
                decreases fields@.len() - i,
            {
                proof {
                    assert(decreases_to!(*v => (*v)->Object_0));
                    assert(decreases_to!(*fields => fields@));
                    assert(decreases_to!(fields@ => fields@[i as int]));
                    assert(decreases_to!(fields@[i as int] => fields@[i as int].1));
                    let t = fields_view(fields@).take(i as int + 1);
                    assert(t.drop_last() =~= fields_view(fields@).take(i as int));
                    assert(t.last() == (fields@[i as int].0@, fields@[i as int].1@));
                    if i == 0 {
                        assert(t[0] == (fields@[0].0@, fields@[0].1@));
                    }
                }
                if i > 0 {
                    s.append(", ");
                }
                let q = debug_quote(fields[i].0.as_str());
                s.append(q.as_str());
                s.append(": ");
                append_value_debug(s, &fields[i].1);
                proof {
                    let t = fields_view(fields@).take(i as int + 1);
                    if i == 0 {
                        assert(fields_debug(fields_view(fields@).take(0)) =~= Seq::<char>::empty());
                    }
                    assert(s@ =~= start + fields_debug(t));
                }
                i = i + 1;
            }
            proof {
                assert(fields_view(fields@).take(fields@.len() as int) =~= fields_view(fields@));
            }
            s.append("})");
        },
    }
    proof {
        assert(final(s)@ =~= old(s)@ + value_debug(v@));
    }
}

} // verus!
