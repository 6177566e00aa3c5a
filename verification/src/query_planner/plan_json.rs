//! Compact JSON text of candidate plans, for debug captures and explain
//! consumers that want structure rather than lines.
use vstd::prelude::*;
use crate::query_planner::explain::{filter_text, render_filter};
use crate::query_planner::plan::{
    lemma_plans_view, note_view, plans_view, source_description, source_kind, source_view, CandidatePlan,
    CandidateSource, NoteView, PlanView, SourceView,
};
use crate::render::push_char;

verus! {

/// A hexadecimal digit, lower case.
pub open spec fn hex_digit(d: int) -> char {
    "0123456789abcdef"@[d]
}

/// One character as it appears inside a JSON string: quote and backslash
/// escaped, the short escapes for backspace, tab, line feed, form feed and
/// carriage return, `\u00XX` for the other control characters.
pub open spec fn json_escaped_char(c: char) -> Seq<char> {
    if c == '"' {
        "\\\""@
    } else if c == '\\' {
        "\\\\"@
    } else if c == '\u{8}' {
        "\\b"@
    } else if c == '\t' {
        "\\t"@
    } else if c == '\n' {
        "\\n"@
    } else if c == '\u{c}' {
        "\\f"@
    } else if c == '\r' {
        "\\r"@
    } else if (c as u32) < 32 {
        "\\u00"@ + seq![hex_digit((c as u32) as int / 16), hex_digit((c as u32) as int % 16)]
    } else {
        seq![c]
    }
}

/// The characters of `s`, each escaped for a JSON string.
pub open spec fn json_escaped(s: Seq<char>) -> Seq<char>
    decreases s.len(),
{
    if s.len() == 0 {
        Seq::empty()
    } else {
        json_escaped(s.drop_last()) + json_escaped_char(s.last())
    }
}

/// `s` as a JSON string literal.
pub open spec fn json_string(s: Seq<char>) -> Seq<char> {
    "\""@ + json_escaped(s) + "\""@
}

/// The JSON object of a child plan: its source and type.
pub open spec fn json_child(source: SourceView, type_label: Seq<char>) -> Seq<char>
    decreases source, 2int,
{
    "{\"source\":"@ + json_source(source) + ",\"type\":"@ + json_string(type_label) + "}"@
}

/// The `children` member of a source's JSON object, with its trailing
/// comma: present when the source has child plans.
pub open spec fn json_children_member(src: SourceView) -> Seq<char>
    decreases src, 0int,
{
    match src {
        SourceView::Intersection(children) => if children.len() > 0 {
            "\"children\":["@ + json_children(children) + "],"@
        } else {
            Seq::empty()
        },
        SourceView::Union(children) => if children.len() > 0 {
            "\"children\":["@ + json_children(children) + "],"@
        } else {
            Seq::empty()
        },
        SourceView::RelationExpansion { child_plan, .. } => "\"children\":["@ + json_child(
            child_plan.source,
            child_plan.type_label,
        ) + "],"@,
        _ => Seq::empty(),
    }
}

/// The JSON object of a source: its child plans (when it has any), its
/// description and its kind, keys in sorted order.
pub open spec fn json_source(src: SourceView) -> Seq<char>
    decreases src, 1int,
{
    "{"@ + json_children_member(src) + "\"detail\":"@ + json_string(source_description(src)) + ",\"kind\":"@
        + json_string(source_kind(src)) + "}"@
}

/// The child plans' JSON objects, comma separated.
pub open spec fn json_children(children: Seq<PlanView>) -> Seq<char>
    decreases children, 0int,
{
    if children.len() == 0 {
        Seq::empty()
    } else {
        json_children(children.drop_last()) + (if children.len() > 1 { ","@ } else { Seq::empty() }) + json_child(
            children.last().source,
            children.last().type_label,
        )
    }
}

/// The notes' JSON objects, comma separated.
pub open spec fn json_notes(notes: Seq<NoteView>) -> Seq<char>
    decreases notes.len(),
{
    if notes.len() == 0 {
        Seq::empty()
    } else {
        json_notes(notes.drop_last()) + (if notes.len() > 1 { ","@ } else { Seq::empty() }) + "{\"detail\":"@
            + json_string(notes.last().detail) + ",\"kind\":"@ + json_string(notes.last().kind) + "}"@
    }
}

/// The compact JSON text of a candidate plan: its notes, its residual
/// filter (rendered as text, or `null`), its source tree and its type,
/// object keys in sorted order.
pub open spec fn plan_json(plan: PlanView) -> Seq<char> {
    "{\"notes\":["@ + json_notes(plan.notes) + "],\"residual\":"@ + match plan.residual {
        Some(f) => json_string(filter_text(f)),
        None => "null"@,
    } + ",\"source\":"@ + json_source(plan.source) + ",\"type\":"@ + json_string(plan.type_label) + "}"@
}

/// Appends `s` as a JSON string literal.
fn append_json_string(out: &mut String, s: &str)
    ensures
        final(out)@ == old(out)@ + json_string(s@),
{
    let ghost start = out@;
    out.append("\"");
    let n = s.unicode_len();
    let mut i: usize = 0;
    while i < n
        invariant
            n == s@.len(),
            i <= n,
            out@ == start + "\""@ + json_escaped(s@.take(i as int)),
        decreases n - i,
    {
        let c = s.get_char(i);
        let ghost before = out@;
        if c == '"' {
            out.append("\\\"");
        } else if c == '\\' {
            out.append("\\\\");
        } else if c == '\u{8}' {
            out.append("\\b");
        } else if c == '\t' {
            out.append("\\t");
        } else if c == '\n' {
            out.append("\\n");
        } else if c == '\u{c}' {
            out.append("\\f");
        } else if c == '\r' {
            out.append("\\r");
        } else if (c as u32) < 32 {
            out.append("\\u00");
            let u = c as u32;
            let digits = "0123456789abcdef";
            proof {
                reveal_strlit("0123456789abcdef");
                assert(digits@.len() == 16);
            }
            push_char(out, digits.get_char((u / 16) as usize));
            push_char(out, digits.get_char((u % 16) as usize));
            proof {
                assert(out@ =~= before + ("\\u00"@ + seq![hex_digit((c as u32) as int / 16), hex_digit((c as u32) as int % 16)]));
            }
        } else {
            push_char(out, c);
        }
        proof {
            assert(out@ =~= before + json_escaped_char(c));
            let t = s@.take(i as int + 1);
            assert(t.drop_last() =~= s@.take(i as int));
            assert(t.last() == c);
        }
        i = i + 1;
    }
    proof {
        assert(s@.take(n as int) =~= s@);
    }
    out.append("\"");
}

fn append_json_child(source: &CandidateSource, type_label: &str, out: &mut String)
    ensures
        final(out)@ == old(out)@ + json_child(source_view(*source), type_label@),
    decreases source, 2int,
{
    out.append("{\"source\":");
    append_json_source(source, out);
    out.append(",\"type\":");
    append_json_string(out, type_label);
    out.append("}");
}

fn append_json_children_member(source: &CandidateSource, out: &mut String)
    ensures
        final(out)@ == old(out)@ + json_children_member(source_view(*source)),
    decreases source, 0int,
{
    let ghost start = out@;
    match source {
        CandidateSource::Intersection(children) => {
            proof {
                assert(source_view(*source) == SourceView::Intersection(plans_view(children@)));
                lemma_plans_view(children@);
            }
            if children.len() > 0 {
                out.append("\"children\":[");
                append_json_children(children, out);
                out.append("],");
            } else {
                assert(out@ =~= start + Seq::<char>::empty());
            }
        },
        CandidateSource::Union(children) => {
            proof {
                assert(source_view(*source) == SourceView::Union(plans_view(children@)));
                lemma_plans_view(children@);
            }
            if children.len() > 0 {
                out.append("\"children\":[");
                append_json_children(children, out);
                out.append("],");
            } else {
                assert(out@ =~= start + Seq::<char>::empty());
            }
        },
        CandidateSource::RelationExpansion { child_plan, .. } => {
            out.append("\"children\":[");
            append_json_child(&child_plan.source, child_plan.type_label.as_str(), out);
            out.append("],");
        },
        _ => {
            assert(out@ =~= start + Seq::<char>::empty());
        },
    }
}

fn append_json_source(source: &CandidateSource, out: &mut String)
    ensures
        final(out)@ == old(out)@ + json_source(source_view(*source)),
    decreases source, 1int,
{
    out.append("{");
    append_json_children_member(source, out);
    out.append("\"detail\":");
    let d = source.describe();
    append_json_string(out, d.as_str());
    out.append(",\"kind\":");
    append_json_string(out, source.kind());
    out.append("}");
}

fn append_json_children(children: &Vec<CandidatePlan>, out: &mut String)
    ensures
        final(out)@ == old(out)@ + json_children(plans_view(children@)),
    decreases children, 0int,
{
    let ghost start = out@;
    let ghost pv = plans_view(children@);
    proof {
        lemma_plans_view(children@);
    }
    let mut i: usize = 0;
    while i < children.len()
        invariant
            i <= children@.len(),
            pv == plans_view(children@),
            pv.len() == children@.len(),
            forall|j: int| 0 <= j < children@.len() ==> #[trigger] pv[j] == children@[j]@,
            out@ == start + json_children(pv.take(i as int)),
        decreases children@.len() - i,
    {
        proof {
            assert(decreases_to!(*children => children@));
            assert(decreases_to!(children@ => children@[i as int]));
            assert(decreases_to!(children@[i as int] => children@[i as int].source));
            assert(pv[i as int].source == source_view(children@[i as int].source));
            assert(pv[i as int].type_label == children@[i as int].type_label@);
        }
        let ghost before = out@;
        if i > 0 {
            out.append(",");
        }
        append_json_child(&children[i].source, children[i].type_label.as_str(), out);
        proof {
            let t = pv.take(i as int + 1);
            assert(t.drop_last() =~= pv.take(i as int));
            assert(t.last() == pv[i as int]);
            assert(t.len() == i + 1);
            if i > 0 {
                assert(out@ =~= before + ","@ + json_child(pv[i as int].source, pv[i as int].type_label));
            } else {
                assert(out@ =~= before + Seq::<char>::empty() + json_child(pv[i as int].source, pv[i as int].type_label));
            }
        }
        i = i + 1;
    }
    proof {
        assert(pv.take(children@.len() as int) =~= pv);
    }
}

/// Renders a candidate plan as compact JSON text (see [`plan_json`]).
pub fn candidate_plan_json(plan: &CandidatePlan) -> (s: String)
    ensures
        s@ == plan_json(plan@),
{
    let mut out = String::from_str("{\"notes\":[");
    let ghost head = out@;
    let ghost nv = plan@.notes;
    let mut i: usize = 0;
    while i < plan.notes.len()
        invariant
            i <= plan.notes@.len(),
            nv == plan@.notes,
            nv.len() == plan.notes@.len(),
            forall|j: int| 0 <= j < nv.len() ==> #[trigger] nv[j] == note_view(plan.notes@[j]),
            out@ == head + json_notes(nv.take(i as int)),
        decreases plan.notes@.len() - i,
    {
        let ghost before = out@;
        if i > 0 {
            out.append(",");
        }
        out.append("{\"detail\":");
        append_json_string(&mut out, plan.notes[i].detail.as_str());
        out.append(",\"kind\":");
        append_json_string(&mut out, plan.notes[i].kind);
        out.append("}");
        proof {
            let t = nv.take(i as int + 1);
            assert(t.drop_last() =~= nv.take(i as int));
            assert(t.last() == nv[i as int]);
            assert(t.len() == i + 1);
            let obj = "{\"detail\":"@ + json_string(nv[i as int].detail) + ",\"kind\":"@ + json_string(nv[i as int].kind) + "}"@;
            if i > 0 {
                assert(out@ =~= before + ","@ + obj);
            } else {
                assert(out@ =~= before + Seq::<char>::empty() + obj);
            }
        }
        i = i + 1;
    }
    proof {
        assert(nv.take(plan.notes@.len() as int) =~= nv);
    }
    out.append("],\"residual\":");
    let ghost after_notes = out@;
    match &plan.residual {
        Some(residual) => {
            let r = render_filter(residual);
            append_json_string(&mut out, r.as_str());
        },
        None => {
            out.append("null");
        },
    }
    out.append(",\"source\":");
    append_json_source(&plan.source, &mut out);
    out.append(",\"type\":");
    append_json_string(&mut out, plan.type_label.as_str());
    out.append("}");
    out
}

} // verus!
