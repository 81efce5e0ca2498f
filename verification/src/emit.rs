//! The configuration-text emitter: renders one `Object` as a self-contained
//! block, with the fixed string delimiters, the trailing separators after the
//! last element of a list or mapping, and the reserved top-level property
//! names silently dropped.
//!
//! A string is wrapped verbatim between `{{{` and `}}}`; the closing delimiter
//! is deliberately not escaped inside the string, a known limitation of the
//! output syntax that is preserved here.

use vstd::prelude::*;
use crate::value::{Val, ValueModel, Object, ObjectModel, value_rep, seq_rep, pairs_rep,
    object_rep, lemma_seq_rep, lemma_pairs_rep};
use vstd::string::StringExecFns;

verus! {

/// A string value's rendering: its characters verbatim between the fixed
/// delimiters.
pub open spec fn esc(s: Seq<char>) -> Seq<char> {
    "{{{"@ + s + "}}}"@
}

/// The top-level property names that are never emitted.
pub open spec fn is_reserved_key(k: Seq<char>) -> bool {
    ||| k == "__name"@
    ||| k == "name"@
    ||| k == "package"@
    ||| k == "source_location"@
    ||| k == "templates"@
    ||| k == "type"@
}

/// The rendering of one value.
pub open spec fn render_val(v: ValueModel) -> Seq<char>
    decreases v,
{
    match v {
        ValueModel::Str(s) => esc(s),
        ValueModel::Scalar(t) => t,
        ValueModel::Arr(es) => "[ "@ + render_elems(es) + "]"@,
        ValueModel::Obj(ps) => "{ "@ + render_pairs(ps) + "}"@,
    }
}

/// The renderings of a list's elements, each followed by the separator,
/// the last one included.
pub open spec fn render_elems(es: Seq<ValueModel>) -> Seq<char>
    decreases es,
{
    if es.len() == 0 {
        Seq::empty()
    } else {
        render_val(es[0]) + ", "@ + render_elems(es.drop_first())
    }
}

/// The renderings of a nested mapping's pairs, each followed by the
/// separator, the last one included.
pub open spec fn render_pairs(ps: Seq<(Seq<char>, ValueModel)>) -> Seq<char>
    decreases ps,
{
    if ps.len() == 0 {
        Seq::empty()
    } else {
        esc(ps[0].0) + " = "@ + render_val(ps[0].1) + "; "@ + render_pairs(ps.drop_first())
    }
}

/// One emitted property line.
pub open spec fn render_prop_line(k: Seq<char>, v: ValueModel) -> Seq<char> {
    "  "@ + k + " = "@ + render_val(v) + "\n"@
}

/// The emitted lines of an object's properties, in order, with reserved
/// keys dropped.
pub open spec fn render_props(ps: Seq<(Seq<char>, ValueModel)>) -> Seq<char>
    decreases ps,
{
    if ps.len() == 0 {
        Seq::empty()
    } else if is_reserved_key(ps[0].0) {
        render_props(ps.drop_first())
    } else {
        render_prop_line(ps[0].0, ps[0].1) + render_props(ps.drop_first())
    }
}

/// The whole block one object emits: header, property lines, footer, and the
/// blank line that separates blocks.
pub open spec fn render_object(o: ObjectModel) -> Seq<char> {
    "object "@ + o.kind + " "@ + esc(o.name) + " {\n"@ + render_props(o.properties) + "}\n\n"@
}

/// Escaping fidelity: a string value renders as the opening delimiter, its
/// characters verbatim, and the closing delimiter, with no other change.
pub proof fn lemma_escaping_fidelity(s: Seq<char>)
    ensures
        render_val(ValueModel::Str(s)) == "{{{"@ + s + "}}}"@,
{
}

/// Trailing-separator consistency for lists: the element appended last is
/// rendered like every other, followed by the separator.
pub proof fn lemma_render_elems_push(es: Seq<ValueModel>, e: ValueModel)
    ensures
        render_elems(es.push(e)) == render_elems(es) + render_val(e) + ", "@,
    decreases es.len(),
{
    if es.len() == 0 {
        assert(es.push(e).drop_first() =~= Seq::<ValueModel>::empty());
        assert(render_elems(Seq::<ValueModel>::empty()) == Seq::<char>::empty());
        assert(render_elems(es.push(e)) =~= render_elems(es) + render_val(e) + ", "@);
    } else {
        assert(es.push(e).drop_first() =~= es.drop_first().push(e));
        lemma_render_elems_push(es.drop_first(), e);
        assert(render_elems(es.push(e)) =~= render_elems(es) + render_val(e) + ", "@);
    }
}

/// Trailing-separator consistency for nested mappings: the pair appended last
/// is rendered like every other, followed by the separator.
pub proof fn lemma_render_pairs_push(ps: Seq<(Seq<char>, ValueModel)>, p: (Seq<char>, ValueModel))
    ensures
        render_pairs(ps.push(p)) == render_pairs(ps) + esc(p.0) + " = "@ + render_val(p.1)
            + "; "@,
    decreases ps.len(),
{
    if ps.len() == 0 {
        assert(ps.push(p).drop_first() =~= Seq::<(Seq<char>, ValueModel)>::empty());
        assert(render_pairs(Seq::<(Seq<char>, ValueModel)>::empty()) == Seq::<char>::empty());
        assert(render_pairs(ps.push(p)) =~= render_pairs(ps) + esc(p.0) + " = "@ + render_val(
            p.1,
        ) + "; "@);
    } else {
        assert(ps.push(p).drop_first() =~= ps.drop_first().push(p));
        lemma_render_pairs_push(ps.drop_first(), p);
        assert(render_pairs(ps.push(p)) =~= render_pairs(ps) + esc(p.0) + " = "@ + render_val(
            p.1,
        ) + "; "@);
    }
}

pub proof fn lemma_render_props_push(ps: Seq<(Seq<char>, ValueModel)>, p: (Seq<char>, ValueModel))
    ensures
        render_props(ps.push(p)) == render_props(ps) + (if is_reserved_key(p.0) {
            Seq::<char>::empty()
        } else {
            render_prop_line(p.0, p.1)
        }),
    decreases ps.len(),
{
    let tail = if is_reserved_key(p.0) {
        Seq::<char>::empty()
    } else {
        render_prop_line(p.0, p.1)
    };
    if ps.len() == 0 {
        assert(ps.push(p).drop_first() =~= Seq::<(Seq<char>, ValueModel)>::empty());
        assert(render_props(Seq::<(Seq<char>, ValueModel)>::empty()) == Seq::<char>::empty());
        assert(render_props(ps.push(p)) =~= render_props(ps) + tail);
    } else {
        assert(ps.push(p).drop_first() =~= ps.drop_first().push(p));
        lemma_render_props_push(ps.drop_first(), p);
        assert(render_props(ps.push(p)) =~= render_props(ps) + tail);
    }
}

/// Reserved-key suppression: the emitted property lines are exactly those of
/// the non-reserved pairs; pairs with a reserved key leave no line, whatever
/// their value.
pub proof fn lemma_reserved_suppressed(ps: Seq<(Seq<char>, ValueModel)>)
    ensures
        render_props(ps) == render_props(
            ps.filter(|p: (Seq<char>, ValueModel)| !is_reserved_key(p.0)),
        ),
    decreases ps.len(),
{
    reveal(Seq::filter);
    let pred = |p: (Seq<char>, ValueModel)| !is_reserved_key(p.0);
    if ps.len() > 0 {
        lemma_reserved_suppressed(ps.drop_last());
        assert(ps.drop_last().push(ps.last()) =~= ps);
        lemma_render_props_push(ps.drop_last(), ps.last());
        if pred(ps.last()) {
            lemma_render_props_push(ps.drop_last().filter(pred), ps.last());
        }
    }
}

/// Whether `k` is one of the reserved top-level property names.
pub fn is_reserved(k: &String) -> (b: bool)
    ensures
        b == is_reserved_key(k@),
{
    *k == String::from_str("__name") || *k == String::from_str("name") || *k == String::from_str(
        "package",
    ) || *k == String::from_str("source_location") || *k == String::from_str("templates") || *k
        == String::from_str("type")
}

/// Appends a string value's rendering: the opening delimiter, the string's
/// bytes verbatim, the closing delimiter.
pub fn write_icinga_str(out: &mut String, s: &String)
    ensures
        final(out)@ == old(out)@ + esc(s@),
{
    out.append("{{{");
    out.append(s.as_str());
    out.append("}}}");
    proof {
        assert(out@ =~= old(out)@ + esc(s@));
    }
}

/// Appends one value's rendering.
pub fn write_icinga_val(out: &mut String, v: &Val)
    ensures
        final(out)@ == old(out)@ + render_val(value_rep(*v)),
    decreases v,
{
    match v {
        Val::Str(s) => {
            write_icinga_str(out, s);
        },
        Val::Scalar(t) => {
            out.append(t.as_str());
        },
        Val::Arr(elems) => {
            let ghost es = seq_rep(elems@);
            proof {
                lemma_seq_rep(elems@);
            }
            out.append("[ ");
            let mut i: usize = 0;
            while i < elems.len()
                invariant
                    i <= elems.len(),
                    *v == Val::Arr(*elems),
                    es == seq_rep(elems@),
                    es.len() == elems@.len(),
                    forall|j: int| 0 <= j < elems@.len() ==> es[j] == value_rep(elems@[j]),
                    out@ == old(out)@ + "[ "@ + render_elems(es.take(i as int)),
                decreases elems.len() - i,
            {
                proof {
                    let vv = *v;
                    assert(vv == Val::Arr(*elems));
                    assert(vv->Arr_0 == *elems);
                    assert(decreases_to!(vv => vv->Arr_0));
                    assert(decreases_to!(vv->Arr_0 => vv->Arr_0@));
                    assert(decreases_to!(vv->Arr_0@ => vv->Arr_0@[i as int]));
                    assert(decreases_to!(vv => elems@[i as int]));
                }
                write_icinga_val(out, &elems[i]);
                out.append(", ");
                proof {
                    assert(es.take(i + 1 as int) =~= es.take(i as int).push(es[i as int]));
                    lemma_render_elems_push(es.take(i as int), es[i as int]);
                    assert(out@ =~= old(out)@ + "[ "@ + render_elems(es.take(i + 1 as int)));
                }
                i = i + 1;
            }
            out.append("]");
            proof {
                assert(es.take(es.len() as int) =~= es);
                assert(out@ =~= old(out)@ + render_val(value_rep(*v)));
            }
        },
        Val::Obj(pairs) => {
            let ghost qs = pairs_rep(pairs@);
            proof {
                lemma_pairs_rep(pairs@);
            }
            out.append("{ ");
            let mut i: usize = 0;
            while i < pairs.len()
                invariant
                    i <= pairs.len(),
                    *v == Val::Obj(*pairs),
                    qs == pairs_rep(pairs@),
                    qs.len() == pairs@.len(),
                    forall|j: int|
                        0 <= j < pairs@.len() ==> qs[j] == (pairs@[j].0@, value_rep(pairs@[j].1)),
                    out@ == old(out)@ + "{ "@ + render_pairs(qs.take(i as int)),
                decreases pairs.len() - i,
            {
                write_icinga_str(out, &pairs[i].0);
                out.append(" = ");
                proof {
                    let vv = *v;
                    assert(vv == Val::Obj(*pairs));
                    assert(vv->Obj_0 == *pairs);
                    assert(decreases_to!(vv => vv->Obj_0));
                    assert(decreases_to!(vv->Obj_0 => vv->Obj_0@));
                    assert(decreases_to!(vv->Obj_0@ => vv->Obj_0@[i as int]));
                    assert(decreases_to!(vv->Obj_0@[i as int] => vv->Obj_0@[i as int].1));
                    assert(decreases_to!(vv => pairs@[i as int].1));
                }
                write_icinga_val(out, &pairs[i].1);
                out.append("; ");
                proof {
                    assert(qs.take(i + 1 as int) =~= qs.take(i as int).push(qs[i as int]));
                    lemma_render_pairs_push(qs.take(i as int), qs[i as int]);
                    assert(out@ =~= old(out)@ + "{ "@ + render_pairs(qs.take(i + 1 as int)));
                }
                i = i + 1;
            }
            out.append("}");
            proof {
                assert(qs.take(qs.len() as int) =~= qs);
                assert(out@ =~= old(out)@ + render_val(value_rep(*v)));
            }
        },
    }
}

/// Appends the whole block one object emits: the header line, one line per
/// non-reserved property in iteration order, the footer, and the blank line
/// that separates blocks.
pub fn write_icinga_object(out: &mut String, o: &Object)
    ensures
        final(out)@ == old(out)@ + render_object(object_rep(*o)),
{
    let ghost qs = pairs_rep(o.properties@);
    proof {
        lemma_pairs_rep(o.properties@);
    }
    out.append("object ");
    out.append(o.kind.as_str());
    out.append(" ");
    write_icinga_str(out, &o.name);
    out.append(" {\n");
    let ghost header = "object "@ + o.kind@ + " "@ + esc(o.name@) + " {\n"@;
    proof {
        assert(out@ =~= old(out)@ + header);
    }
    let mut i: usize = 0;
    while i < o.properties.len()
        invariant
            i <= o.properties.len(),
            qs == pairs_rep(o.properties@),
            qs.len() == o.properties@.len(),
            forall|j: int|
                0 <= j < o.properties@.len() ==> qs[j] == (
                    o.properties@[j].0@,
                    value_rep(o.properties@[j].1),
                ),
            out@ == old(out)@ + header + render_props(qs.take(i as int)),
        decreases o.properties.len() - i,
    {
        if !is_reserved(&o.properties[i].0) {
            out.append("  ");
            out.append(o.properties[i].0.as_str());
            out.append(" = ");
            write_icinga_val(out, &o.properties[i].1);
            out.append("\n");
        }
        proof {
            assert(qs.take(i + 1 as int) =~= qs.take(i as int).push(qs[i as int]));
            lemma_render_props_push(qs.take(i as int), qs[i as int]);
            assert(out@ =~= old(out)@ + header + render_props(qs.take(i + 1 as int)));
        }
        i = i + 1;
    }
    out.append("}\n\n");
    proof {
        assert(qs.take(qs.len() as int) =~= qs);
        assert(out@ =~= old(out)@ + render_object(object_rep(*o)));
    }
}

} // verus!
