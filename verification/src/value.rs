use vstd::prelude::*;

use crate::omap::distinct_keys;

verus! {

/// Mathematical model of a tree value: the same shape as `TreeValue`,
/// with strings as character sequences and containers as sequences.
pub enum TreeModel {
    Null,
    Bool(bool),
    Number(i64),
    Text(Seq<char>),
    Array(Seq<TreeModel>),
    Object(Seq<(Seq<char>, TreeModel)>),
}

/// A tree-structured value: scalar leaves, ordered arrays, and objects
/// whose entries are kept in insertion order.
#[derive(Debug, PartialEq, Eq)]
pub enum TreeValue {
    Null,
    Bool(bool),
    Number(i64),
    Text(String),
    Array(Vec<TreeValue>),
    Object(Vec<(String, TreeValue)>),
}

/// The models of the elements of an array.
pub open spec fn elems_model(es: Seq<TreeValue>) -> Seq<TreeModel>
    decreases es,
{
    Seq::new(
        es.len(),
        |i: int|
            if 0 <= i < es.len() {
                es[i].model()
            } else {
                TreeModel::Null
            },
    )
}

/// The models of the entries of an object, keys as character sequences.
pub open spec fn entries_model(es: Seq<(String, TreeValue)>) -> Seq<(Seq<char>, TreeModel)>
    decreases es,
{
    Seq::new(
        es.len(),
        |i: int|
            if 0 <= i < es.len() {
                (es[i].0@, es[i].1.model())
            } else {
                (Seq::empty(), TreeModel::Null)
            },
    )
}

impl TreeValue {
    pub open spec fn model(self) -> TreeModel
        decreases self,
    {
        match self {
            TreeValue::Null => TreeModel::Null,
            TreeValue::Bool(b) => TreeModel::Bool(b),
            TreeValue::Number(n) => TreeModel::Number(n),
            TreeValue::Text(s) => TreeModel::Text(s@),
            TreeValue::Array(a) => TreeModel::Array(elems_model(a@)),
            TreeValue::Object(o) => TreeModel::Object(entries_model(o@)),
        }
    }
}

impl View for TreeValue {
    type V = TreeModel;

    open spec fn view(&self) -> TreeModel {
        self.model()
    }
}

/// A well-formed tree: every object is a genuine mapping, with no two
/// entries sharing a key.
pub open spec fn wf_model(v: TreeModel) -> bool
    decreases v,
{
    match v {
        TreeModel::Null => true,
        TreeModel::Bool(_) => true,
        TreeModel::Number(_) => true,
        TreeModel::Text(_) => true,
        TreeModel::Array(a) => forall|i: int| 0 <= i < a.len() ==> wf_model(#[trigger] a[i]),
        TreeModel::Object(o) => distinct_keys(o) && forall|i: int|
            0 <= i < o.len() ==> wf_model(#[trigger] o[i].1),
    }
}

} // verus!
