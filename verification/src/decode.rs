//! The object decoder: one frame's payload bytes become a `Val` tree
//! through the structured-data decoder, and the tree is projected onto the
//! typed record (`kind`, `name`, `properties`) with explicit type checks.
//!
//! The generic decoding itself is an external collaborator: its outcome on
//! given bytes is named by the uninterpreted `json_doc`, and everything after
//! it is verified.

use vstd::prelude::*;
use crate::value::{Val, ValueModel, Object, ObjectModel, value_rep, seq_rep, pairs_rep,
    object_rep, lemma_seq_rep, lemma_pairs_rep, lookup};
use vstd::string::StringExecFns;

verus! {

/// Why a payload failed to decode.
#[derive(Clone, Copy, Debug, PartialEq, Eq, Structural)]
pub enum DecodeError {
    /// The payload is not valid structured text.
    Syntax,
    /// The decoded tree is not a mapping with `type` and `name` as strings
    /// and, if present, `properties` as a mapping.
    Shape,
}

/// What decoding given payload bytes yields: `None` where they are not valid
/// structured text, otherwise the decoded value tree, scalars carried as
/// their canonical text.
pub uninterp spec fn json_doc(bytes: Seq<u8>) -> Option<ValueModel>;

/// Relies on `serde_json::from_slice` to parse the payload and on
/// `serde_json::to_string` for the canonical text of each number, boolean and
/// null; with this crate's configuration the decoded mapping iterates its
/// keys in sorted order, so the whole outcome is a function of the bytes
/// alone, which is what `json_doc` names.
#[verifier::external_body]
fn parse_payload(bytes: &Vec<u8>) -> (r: Result<Val, DecodeError>)
    ensures
        (r matches Ok(v) ==> json_doc(bytes@) == Some(value_rep(v))),
        r is Err <==> json_doc(bytes@) is None,
        (r matches Err(e) ==> e == DecodeError::Syntax),
{
    match serde_json::from_slice::<serde_json::Value>(bytes.as_slice()) {
        Ok(doc) => value_tree(doc),
        Err(_) => Err(DecodeError::Syntax),
    }
}

/// Relies on `serde_json::Value`: one arm per variant, strings and the pairs
/// of a mapping moved over one for one, scalars rendered once through
/// `serde_json::to_string`. Its only caller is `parse_payload`, whose
/// contract states what the two compute together.
#[verifier::external_body]
fn value_tree(doc: serde_json::Value) -> (r: Result<Val, DecodeError>)
{
    match doc {
        serde_json::Value::String(s) => Ok(Val::Str(s)),
        serde_json::Value::Array(elems) => Ok(Val::Arr(
            elems.into_iter().map(value_tree).collect::<Result<Vec<Val>, DecodeError>>()?,
        )),
        serde_json::Value::Object(pairs) => Ok(Val::Obj(
            pairs.into_iter().map(|(k, v)| value_tree(v).map(|w| (k, w))).collect::<Result<
                Vec<(String, Val)>,
                DecodeError,
            >>()?,
        )),
        other => serde_json::to_string(&other).map(Val::Scalar).map_err(|_| DecodeError::Syntax),
    }
}

/// The record a decoded tree describes, if it is a mapping whose `type` and
/// `name` are strings and whose `properties`, if present, is a mapping;
/// a missing `properties` means an empty one.
pub open spec fn obj_of(t: ValueModel) -> Option<ObjectModel> {
    match t {
        ValueModel::Obj(ps) => match lookup(ps, "type"@) {
            Some(ValueModel::Str(kind)) => match lookup(ps, "name"@) {
                Some(ValueModel::Str(name)) => match lookup(ps, "properties"@) {
                    None => Some(
                        ObjectModel { kind, name, properties: Seq::empty() },
                    ),
                    Some(ValueModel::Obj(props)) => Some(
                        ObjectModel { kind, name, properties: props },
                    ),
                    Some(_) => None,
                },
                _ => None,
            },
            _ => None,
        },
        _ => None,
    }
}

impl Val {
    /// A copy of this value tree with the same model.
    pub fn duplicate(&self) -> (r: Val)
        ensures
            value_rep(r) == value_rep(*self),
        decreases self,
    {
        match self {
            Val::Str(s) => Val::Str(s.clone()),
            Val::Scalar(t) => Val::Scalar(t.clone()),
            Val::Arr(elems) => {
                let mut out: Vec<Val> = Vec::new();
                proof {
                    lemma_seq_rep(elems@);
                    lemma_seq_rep(out@);
                }
                let mut i: usize = 0;
                while i < elems.len()
                    invariant
                        i <= elems.len(),
                        *self == Val::Arr(*elems),
                        out@.len() == i,
                        seq_rep(out@) == seq_rep(elems@).take(i as int),
                        seq_rep(elems@).len() == elems@.len(),
                        forall|j: int|
                            0 <= j < elems@.len() ==> seq_rep(elems@)[j] == value_rep(elems@[j]),
                    decreases elems.len() - i,
                {
                    proof {
                        let vv = *self;
                        assert(vv->Arr_0 == *elems);
                        assert(decreases_to!(vv => vv->Arr_0));
                        assert(decreases_to!(vv->Arr_0 => vv->Arr_0@));
                        assert(decreases_to!(vv->Arr_0@ => vv->Arr_0@[i as int]));
                        assert(decreases_to!(vv => elems@[i as int]));
                    }
                    let copy = elems[i].duplicate();
                    proof {
                        lemma_seq_rep(out@);
                    }
                    out.push(copy);
                    proof {
                        lemma_seq_rep(out@);
                        assert(seq_rep(out@) =~= seq_rep(elems@).take(i + 1 as int));
                    }
                    i = i + 1;
                }
                proof {
                    assert(seq_rep(elems@).take(elems@.len() as int) =~= seq_rep(elems@));
                }
                Val::Arr(out)
            },
            Val::Obj(pairs) => {
                let mut out: Vec<(String, Val)> = Vec::new();
                proof {
                    lemma_pairs_rep(pairs@);
                    lemma_pairs_rep(out@);
                }
                let mut i: usize = 0;
                while i < pairs.len()
                    invariant
                        i <= pairs.len(),
                        *self == Val::Obj(*pairs),
                        out@.len() == i,
                        pairs_rep(out@) == pairs_rep(pairs@).take(i as int),
                        pairs_rep(pairs@).len() == pairs@.len(),
                        forall|j: int|
                            0 <= j < pairs@.len() ==> pairs_rep(pairs@)[j] == (
                                pairs@[j].0@,
                                value_rep(pairs@[j].1),
                            ),
                    decreases pairs.len() - i,
                {
                    proof {
                        let vv = *self;
                        assert(vv->Obj_0 == *pairs);
                        assert(decreases_to!(vv => vv->Obj_0));
                        assert(decreases_to!(vv->Obj_0 => vv->Obj_0@));
                        assert(decreases_to!(vv->Obj_0@ => vv->Obj_0@[i as int]));
                        assert(decreases_to!(vv->Obj_0@[i as int] => vv->Obj_0@[i as int].1));
                        assert(decreases_to!(vv => pairs@[i as int].1));
                    }
                    let key = pairs[i].0.clone();
                    let copy = pairs[i].1.duplicate();
                    proof {
                        lemma_pairs_rep(out@);
                    }
                    out.push((key, copy));
                    proof {
                        lemma_pairs_rep(out@);
                        assert(pairs_rep(out@) =~= pairs_rep(pairs@).take(i + 1 as int));
                    }
                    i = i + 1;
                }
                proof {
                    assert(pairs_rep(pairs@).take(pairs@.len() as int) =~= pairs_rep(pairs@));
                }
                Val::Obj(out)
            },
        }
    }
}

/// The value of the first pair of `ps` whose key is `k`, as `lookup` reads it
/// on the model.
fn find_prop<'a>(ps: &'a Vec<(String, Val)>, k: &String) -> (r: Option<&'a Val>)
    ensures
        match lookup(pairs_rep(ps@), k@) {
            None => r is None,
            Some(m) => r matches Some(v) && value_rep(*v) == m,
        },
{
    proof {
        lemma_pairs_rep(ps@);
        assert(pairs_rep(ps@).skip(0) =~= pairs_rep(ps@));
    }
    let mut i: usize = 0;
    while i < ps.len()
        invariant
            i <= ps.len(),
            pairs_rep(ps@).len() == ps@.len(),
            forall|j: int|
                0 <= j < ps@.len() ==> pairs_rep(ps@)[j] == (ps@[j].0@, value_rep(ps@[j].1)),
            lookup(pairs_rep(ps@), k@) == lookup(pairs_rep(ps@).skip(i as int), k@),
        decreases ps.len() - i,
    {
        proof {
            let tail = pairs_rep(ps@).skip(i as int);
            assert(tail[0] == pairs_rep(ps@)[i as int]);
            assert(tail.drop_first() =~= pairs_rep(ps@).skip(i + 1 as int));
        }
        if ps[i].0 == *k {
            return Some(&ps[i].1);
        }
        i = i + 1;
    }
    proof {
        assert(pairs_rep(ps@).skip(ps@.len() as int) =~= Seq::<(Seq<char>, ValueModel)>::empty());
    }
    None
}

/// Projects a decoded tree onto the typed record, failing exactly where the
/// tree does not have the required shape.
pub fn project(v: &Val) -> (r: Result<Object, DecodeError>)
    ensures
        match obj_of(value_rep(*v)) {
            Some(m) => r matches Ok(o) && object_rep(o) == m,
            None => r matches Err(e) && e == DecodeError::Shape,
        },
{
    let pairs = match v {
        Val::Obj(pairs) => pairs,
        _ => {
            return Err(DecodeError::Shape);
        },
    };
    let kind = match find_prop(pairs, &String::from_str("type")) {
        Some(fv) => match fv {
            Val::Str(s) => s.clone(),
            _ => {
                return Err(DecodeError::Shape);
            },
        },
        None => {
            return Err(DecodeError::Shape);
        },
    };
    let name = match find_prop(pairs, &String::from_str("name")) {
        Some(fv) => match fv {
            Val::Str(s) => s.clone(),
            _ => {
                return Err(DecodeError::Shape);
            },
        },
        None => {
            return Err(DecodeError::Shape);
        },
    };
    let properties: Vec<(String, Val)> = match find_prop(pairs, &String::from_str("properties")) {
        None => Vec::new(),
        Some(p) => match p.duplicate() {
            Val::Obj(props) => props,
            _ => {
                return Err(DecodeError::Shape);
            },
        },
    };
    proof {
        assert(pairs_rep(Seq::<(String, Val)>::empty()) == Seq::<(Seq<char>, ValueModel)>::empty());
    }
    Ok(Object { kind, name, properties })
}

/// Decodes one payload: parse, then project.
pub fn decode(bytes: &Vec<u8>) -> (r: Result<Object, DecodeError>)
    ensures
        (r matches Ok(o) ==> json_doc(bytes@) matches Some(t) && obj_of(t) == Some(object_rep(o))),
        (r matches Err(e) && e == DecodeError::Syntax) <==> json_doc(bytes@) is None,
        (r matches Err(e) && e == DecodeError::Shape) <==> (json_doc(bytes@) matches Some(t)
            && obj_of(t) is None),
{
    let v = parse_payload(bytes)?;
    let o = project(&v)?;
    Ok(o)
}

} // verus!
