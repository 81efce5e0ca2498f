//! The value tree decoded from one frame's payload, and the typed record
//! (kind, name, properties) that one payload describes.
//!
//! A `Val` holds what the emitter reads of a decoded payload: strings stay
//! strings, while numbers, booleans and null are carried as the canonical text
//! the structured-data encoder gives them. `ValueModel` is its mathematical
//! shape, over `Seq<char>`.

use vstd::prelude::*;

verus! {

/// The mathematical shape of a decoded value tree.
pub enum ValueModel {
    /// A string value.
    Str(Seq<char>),
    /// The canonical text of a number, boolean or null.
    Scalar(Seq<char>),
    /// An ordered list of values.
    Arr(Seq<ValueModel>),
    /// A mapping, as key/value pairs in iteration order.
    Obj(Seq<(Seq<char>, ValueModel)>),
}

/// A decoded value tree.
pub enum Val {
    /// A string value.
    Str(String),
    /// The canonical text of a number, boolean or null.
    Scalar(String),
    /// An ordered list of values.
    Arr(Vec<Val>),
    /// A mapping, as key/value pairs in iteration order.
    Obj(Vec<(String, Val)>),
}

/// The model of a value tree.
pub open spec fn value_rep(v: Val) -> ValueModel
    decreases v,
{
    match v {
        Val::Str(s) => ValueModel::Str(s@),
        Val::Scalar(t) => ValueModel::Scalar(t@),
        Val::Arr(elems) => ValueModel::Arr(seq_rep(elems@)),
        Val::Obj(pairs) => ValueModel::Obj(pairs_rep(pairs@)),
    }
}

/// The models of a sequence of value trees, in order.
pub open spec fn seq_rep(s: Seq<Val>) -> Seq<ValueModel>
    decreases s,
{
    if s.len() == 0 {
        Seq::empty()
    } else {
        seq![value_rep(s[0])] + seq_rep(s.drop_first())
    }
}

/// The models of a sequence of key/value pairs, in order.
pub open spec fn pairs_rep(s: Seq<(String, Val)>) -> Seq<(Seq<char>, ValueModel)>
    decreases s,
{
    if s.len() == 0 {
        Seq::empty()
    } else {
        seq![(s[0].0@, value_rep(s[0].1))] + pairs_rep(s.drop_first())
    }
}

pub proof fn lemma_seq_rep(s: Seq<Val>)
    ensures
        seq_rep(s).len() == s.len(),
        forall|i: int| 0 <= i < s.len() ==> seq_rep(s)[i] == value_rep(s[i]),
    decreases s.len(),
{
    if s.len() > 0 {
        lemma_seq_rep(s.drop_first());
    }
}

pub proof fn lemma_pairs_rep(s: Seq<(String, Val)>)
    ensures
        pairs_rep(s).len() == s.len(),
        forall|i: int|
            0 <= i < s.len() ==> pairs_rep(s)[i] == (s[i].0@, value_rep(s[i].1)),
    decreases s.len(),
{
    if s.len() > 0 {
        lemma_pairs_rep(s.drop_first());
    }
}

/// The typed record one payload describes: a type tag, a name, and named
/// property values.
pub struct Object {
    pub kind: String,
    pub name: String,
    pub properties: Vec<(String, Val)>,
}

/// The mathematical shape of an `Object`.
pub struct ObjectModel {
    pub kind: Seq<char>,
    pub name: Seq<char>,
    pub properties: Seq<(Seq<char>, ValueModel)>,
}

/// The model of an `Object`.
pub open spec fn object_rep(o: Object) -> ObjectModel {
    ObjectModel { kind: o.kind@, name: o.name@, properties: pairs_rep(o.properties@) }
}

/// The value of the first pair whose key is `k`, if any.
pub open spec fn lookup(ps: Seq<(Seq<char>, ValueModel)>, k: Seq<char>) -> Option<ValueModel>
    decreases ps.len(),
{
    if ps.len() == 0 {
        None
    } else if ps[0].0 == k {
        Some(ps[0].1)
    } else {
        lookup(ps.drop_first(), k)
    }
}

} // verus!
