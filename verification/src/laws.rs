use vstd::prelude::*;

use crate::convention::{cased, CaseConvention};
use crate::converter::{convert_elems, convert_entries, convert_model, resolved_key};
use crate::omap::{
    distinct_keys, lemma_map_get_insert, lemma_map_insert_distinct, lemma_map_insert_not_found,
    lemma_map_insert_values, map_get,
};
use crate::rename::{manual_override, RenameBehavior};
use crate::value::{wf_model, TreeModel};

verus! {

/// Override precedence: when the rename table has an override for `k` under
/// behavior `m`, the resolved key is exactly that override — the case
/// convention plays no part in it.
pub proof fn lemma_override_precedence(
    k: Seq<char>,
    c: CaseConvention,
    t: Seq<(Seq<char>, Seq<char>)>,
    m: RenameBehavior,
)
    requires
        manual_override(t, k, m) is Some,
    ensures
        resolved_key(k, c, t, m) == manual_override(t, k, m)->0,
        forall|c2: CaseConvention| resolved_key(k, c, t, m) == resolved_key(k, c2, t, m),
{
}

/// Leaves are copied unchanged: conversion only touches arrays and objects.
pub proof fn lemma_leaf_unchanged(
    v: TreeModel,
    c: CaseConvention,
    t: Seq<(Seq<char>, Seq<char>)>,
    m: RenameBehavior,
)
    requires
        !(v is Array),
        !(v is Object),
    ensures
        convert_model(v, c, t, m) == v,
{
}

/// Recursion over arrays: an array converts elementwise in order, so object
/// elements have their keys converted while scalar and string elements come
/// back unchanged — they are never treated as keys.
pub proof fn lemma_array_elementwise(
    a: Seq<TreeModel>,
    c: CaseConvention,
    t: Seq<(Seq<char>, Seq<char>)>,
    m: RenameBehavior,
)
    ensures
        convert_model(TreeModel::Array(a), c, t, m) matches TreeModel::Array(ca) && ca.len()
            == a.len() && (forall|i: int|
            0 <= i < a.len() ==> ca[i] == convert_model(#[trigger] a[i], c, t, m)) && (forall|i: int|
            0 <= i < a.len() && !(a[i] is Array) && !(a[i] is Object) ==> ca[i] == #[trigger] a[i]),
{
    let ca = convert_elems(a, c, t, m);
    assert(forall|i: int| 0 <= i < a.len() ==> ca[i] == convert_model(#[trigger] a[i], c, t, m));
}

/// No two of the first `n` entries resolve to the same key.
pub open spec fn resolved_distinct(
    o: Seq<(Seq<char>, TreeModel)>,
    c: CaseConvention,
    t: Seq<(Seq<char>, Seq<char>)>,
    m: RenameBehavior,
) -> bool {
    forall|i: int, j: int|
        0 <= i < j < o.len() ==> resolved_key(#[trigger] o[i].0, c, t, m) != resolved_key(
            #[trigger] o[j].0,
            c,
            t,
            m,
        )
}

/// No object anywhere in the tree has two entries resolving to the same key.
pub open spec fn collision_free(
    v: TreeModel,
    c: CaseConvention,
    t: Seq<(Seq<char>, Seq<char>)>,
    m: RenameBehavior,
) -> bool
    decreases v,
{
    match v {
        TreeModel::Null => true,
        TreeModel::Bool(_) => true,
        TreeModel::Number(_) => true,
        TreeModel::Text(_) => true,
        TreeModel::Array(a) => forall|i: int|
            0 <= i < a.len() ==> collision_free(#[trigger] a[i], c, t, m),
        TreeModel::Object(o) => resolved_distinct(o, c, t, m) && forall|i: int|
            0 <= i < o.len() ==> collision_free(#[trigger] o[i].1, c, t, m),
    }
}

/// When no two entries collide, the converted object keeps every entry at
/// its original position: entry `i` becomes its resolved key paired with its
/// converted value.
pub proof fn lemma_convert_entries_nocollision(
    o: Seq<(Seq<char>, TreeModel)>,
    c: CaseConvention,
    t: Seq<(Seq<char>, Seq<char>)>,
    m: RenameBehavior,
    n: int,
)
    requires
        0 <= n <= o.len(),
        resolved_distinct(o, c, t, m),
    ensures
        convert_entries(o, c, t, m, n).len() == n,
        forall|i: int|
            0 <= i < n ==> convert_entries(o, c, t, m, n)[i] == (
                resolved_key(#[trigger] o[i].0, c, t, m),
                convert_model(o[i].1, c, t, m),
            ),
    decreases n,
{
    if n > 0 {
        lemma_convert_entries_nocollision(o, c, t, m, n - 1);
        let prev = convert_entries(o, c, t, m, n - 1);
        let rk = resolved_key(o[n - 1].0, c, t, m);
        assert forall|i: int| 0 <= i < prev.len() implies prev[i].0 != rk by {
            assert(prev[i] == (resolved_key(o[i].0, c, t, m), convert_model(o[i].1, c, t, m)));
        }
        lemma_map_insert_not_found(prev, rk, convert_model(o[n - 1].1, c, t, m));
    }
}

/// The keys of a tree, with object keys erased: what is left of a value once
/// only its nesting structure, array order and leaf contents count.
pub open spec fn shape(v: TreeModel) -> TreeModel
    decreases v,
{
    match v {
        TreeModel::Null => v,
        TreeModel::Bool(_) => v,
        TreeModel::Number(_) => v,
        TreeModel::Text(_) => v,
        TreeModel::Array(a) => TreeModel::Array(shape_elems(a)),
        TreeModel::Object(o) => TreeModel::Object(shape_entries(o)),
    }
}

pub open spec fn shape_elems(a: Seq<TreeModel>) -> Seq<TreeModel>
    decreases a,
{
    Seq::new(
        a.len(),
        |i: int|
            if 0 <= i < a.len() {
                shape(a[i])
            } else {
                TreeModel::Null
            },
    )
}

pub open spec fn shape_entries(o: Seq<(Seq<char>, TreeModel)>) -> Seq<(Seq<char>, TreeModel)>
    decreases o,
{
    Seq::new(
        o.len(),
        |i: int|
            if 0 <= i < o.len() {
                (Seq::<char>::empty(), shape(o[i].1))
            } else {
                (Seq::<char>::empty(), TreeModel::Null)
            },
    )
}

/// Shape preservation: as long as no two sibling entries resolve to the same
/// key, conversion keeps the nesting structure, the array lengths and order,
/// and every leaf value; only object key strings change. (When siblings do
/// collide, the documented last-write-wins policy merges them instead.)
pub proof fn lemma_shape_preserved(
    v: TreeModel,
    c: CaseConvention,
    t: Seq<(Seq<char>, Seq<char>)>,
    m: RenameBehavior,
)
    requires
        collision_free(v, c, t, m),
    ensures
        shape(convert_model(v, c, t, m)) == shape(v),
    decreases v,
{
    match v {
        TreeModel::Array(a) => {
            let ca = convert_elems(a, c, t, m);
            assert forall|i: int| 0 <= i < a.len() implies shape(#[trigger] ca[i]) == shape(
                a[i],
            ) by {
                lemma_shape_preserved(a[i], c, t, m);
            }
            assert(shape_elems(ca) =~= shape_elems(a));
        },
        TreeModel::Object(o) => {
            lemma_convert_entries_nocollision(o, c, t, m, o.len() as int);
            let co = convert_entries(o, c, t, m, o.len() as int);
            assert forall|i: int| 0 <= i < o.len() implies shape(#[trigger] co[i].1) == shape(
                o[i].1,
            ) by {
                assert(co[i] == (resolved_key(o[i].0, c, t, m), convert_model(o[i].1, c, t, m)));
                lemma_shape_preserved(o[i].1, c, t, m);
            }
            assert(shape_entries(co) =~= shape_entries(o));
        },
        _ => {},
    }
}

/// Every key of the tree is already written in convention `c`.
pub open spec fn keys_in_convention(v: TreeModel, c: CaseConvention) -> bool
    decreases v,
{
    match v {
        TreeModel::Null => true,
        TreeModel::Bool(_) => true,
        TreeModel::Number(_) => true,
        TreeModel::Text(_) => true,
        TreeModel::Array(a) => forall|i: int|
            0 <= i < a.len() ==> keys_in_convention(#[trigger] a[i], c),
        TreeModel::Object(o) => (forall|i: int|
            0 <= i < o.len() ==> cased(c, #[trigger] o[i].0) == o[i].0) && forall|i: int|
            0 <= i < o.len() ==> keys_in_convention(#[trigger] o[i].1, c),
    }
}

/// Idempotence under a stable convention: a well-formed tree whose keys are
/// all already in convention `c`, converted with an empty rename table,
/// comes back equal to itself.
pub proof fn lemma_idempotent_under_stable_convention(
    v: TreeModel,
    c: CaseConvention,
    m: RenameBehavior,
)
    requires
        wf_model(v),
        keys_in_convention(v, c),
    ensures
        convert_model(v, c, Seq::<(Seq<char>, Seq<char>)>::empty(), m) == v,
    decreases v,
{
    let t = Seq::<(Seq<char>, Seq<char>)>::empty();
    match v {
        TreeModel::Array(a) => {
            let ca = convert_elems(a, c, t, m);
            assert forall|i: int| 0 <= i < a.len() implies #[trigger] ca[i] == a[i] by {
                lemma_idempotent_under_stable_convention(a[i], c, m);
            }
            assert(ca =~= a);
        },
        TreeModel::Object(o) => {
            assert forall|i: int| 0 <= i < o.len() implies resolved_key(
                #[trigger] o[i].0,
                c,
                t,
                m,
            ) == o[i].0 by {
                assert(manual_override(t, o[i].0, m) is None);
            }
            lemma_convert_entries_nocollision(o, c, t, m, o.len() as int);
            let co = convert_entries(o, c, t, m, o.len() as int);
            assert forall|i: int| 0 <= i < o.len() implies #[trigger] co[i] == o[i] by {
                lemma_idempotent_under_stable_convention(o[i].1, c, m);
            }
            assert(co =~= o);
        },
        _ => {},
    }
}

/// A converted object never holds two entries under the same key, and each
/// of its values is the conversion of some original value.
pub proof fn lemma_convert_entries_wf(
    o: Seq<(Seq<char>, TreeModel)>,
    c: CaseConvention,
    t: Seq<(Seq<char>, Seq<char>)>,
    m: RenameBehavior,
    n: int,
)
    requires
        0 <= n <= o.len(),
    ensures
        distinct_keys(convert_entries(o, c, t, m, n)),
        forall|i: int|
            0 <= i < convert_entries(o, c, t, m, n).len() ==> exists|l: int|
                0 <= l < o.len() && #[trigger] convert_entries(o, c, t, m, n)[i].1
                    == convert_model(o[l].1, c, t, m),
    decreases n,
{
    if n > 0 {
        lemma_convert_entries_wf(o, c, t, m, n - 1);
        let prev = convert_entries(o, c, t, m, n - 1);
        let rk = resolved_key(o[n - 1].0, c, t, m);
        let cv = convert_model(o[n - 1].1, c, t, m);
        lemma_map_insert_distinct(prev, rk, cv);
        lemma_map_insert_values(prev, rk, cv);
        let cur = convert_entries(o, c, t, m, n);
        assert forall|i: int| 0 <= i < cur.len() implies exists|l: int|
            0 <= l < o.len() && #[trigger] cur[i].1 == convert_model(o[l].1, c, t, m) by {
            if cur[i].1 == cv {
                assert(cur[i].1 == convert_model(o[n - 1].1, c, t, m));
            } else {
                let j = choose|j: int| 0 <= j < prev.len() && prev[j].1 == cur[i].1;
                let l = choose|l: int|
                    0 <= l < o.len() && #[trigger] prev[j].1 == convert_model(o[l].1, c, t, m);
                assert(cur[i].1 == convert_model(o[l].1, c, t, m));
            }
        }
    }
}

/// Conversion always produces a well-formed tree: every object in the
/// output is a genuine mapping, with no two entries sharing a key.
pub proof fn lemma_convert_wf(
    v: TreeModel,
    c: CaseConvention,
    t: Seq<(Seq<char>, Seq<char>)>,
    m: RenameBehavior,
)
    ensures
        wf_model(convert_model(v, c, t, m)),
    decreases v,
{
    match v {
        TreeModel::Array(a) => {
            let ca = convert_elems(a, c, t, m);
            assert forall|i: int| 0 <= i < ca.len() implies wf_model(#[trigger] ca[i]) by {
                lemma_convert_wf(a[i], c, t, m);
            }
        },
        TreeModel::Object(o) => {
            lemma_convert_entries_wf(o, c, t, m, o.len() as int);
            let co = convert_entries(o, c, t, m, o.len() as int);
            assert forall|i: int| 0 <= i < co.len() implies wf_model(#[trigger] co[i].1) by {
                let l = choose|l: int|
                    0 <= l < o.len() && #[trigger] co[i].1 == convert_model(o[l].1, c, t, m);
                lemma_convert_wf(o[l].1, c, t, m);
            }
        },
        _ => {},
    }
}

/// The position of the last entry among the first `n` whose key resolves to
/// `k`, or -1 when there is none.
pub open spec fn last_resolving_to(
    o: Seq<(Seq<char>, TreeModel)>,
    c: CaseConvention,
    t: Seq<(Seq<char>, Seq<char>)>,
    m: RenameBehavior,
    k: Seq<char>,
    n: int,
) -> int
    decreases n,
{
    if n <= 0 || o.len() < n {
        -1
    } else if resolved_key(o[n - 1].0, c, t, m) == k {
        n - 1
    } else {
        last_resolving_to(o, c, t, m, k, n - 1)
    }
}

/// What a converted object holds at key `k`: the converted value of the last
/// original entry resolving to `k`, and nothing when no entry does.
pub proof fn lemma_converted_object_get(
    o: Seq<(Seq<char>, TreeModel)>,
    c: CaseConvention,
    t: Seq<(Seq<char>, Seq<char>)>,
    m: RenameBehavior,
    k: Seq<char>,
    n: int,
)
    requires
        0 <= n <= o.len(),
    ensures
        ({
            let l = last_resolving_to(o, c, t, m, k, n);
            map_get(convert_entries(o, c, t, m, n), k) == (if l >= 0 {
                Some(convert_model(o[l].1, c, t, m))
            } else {
                None::<TreeModel>
            })
        }),
    decreases n,
{
    if n <= 0 {
    } else {
        lemma_converted_object_get(o, c, t, m, k, n - 1);
        lemma_map_get_insert(
            convert_entries(o, c, t, m, n - 1),
            resolved_key(o[n - 1].0, c, t, m),
            convert_model(o[n - 1].1, c, t, m),
            k,
        );
    }
}

/// Last-write-wins on collision: when entries `i` and `j` resolve to the same
/// output key and `j` is the last entry doing so, the converted object holds,
/// under that key, the converted value of entry `j` — the later position wins.
pub proof fn lemma_last_write_wins(
    o: Seq<(Seq<char>, TreeModel)>,
    c: CaseConvention,
    t: Seq<(Seq<char>, Seq<char>)>,
    m: RenameBehavior,
    i: int,
    j: int,
)
    requires
        0 <= i < j < o.len(),
        resolved_key(o[i].0, c, t, m) == resolved_key(o[j].0, c, t, m),
        forall|l: int|
            j < l < o.len() ==> resolved_key(#[trigger] o[l].0, c, t, m) != resolved_key(
                o[j].0,
                c,
                t,
                m,
            ),
    ensures
        map_get(convert_entries(o, c, t, m, o.len() as int), resolved_key(o[j].0, c, t, m))
            == Some(convert_model(o[j].1, c, t, m)),
{
    let k = resolved_key(o[j].0, c, t, m);
    lemma_last_resolving_from(o, c, t, m, k, j, o.len() as int);
    lemma_converted_object_get(o, c, t, m, k, o.len() as int);
}

/// When entry `j` resolves to `k` and no entry in `(j, n)` does, the last
/// entry among the first `n` resolving to `k` is `j` itself.
proof fn lemma_last_resolving_from(
    o: Seq<(Seq<char>, TreeModel)>,
    c: CaseConvention,
    t: Seq<(Seq<char>, Seq<char>)>,
    m: RenameBehavior,
    k: Seq<char>,
    j: int,
    n: int,
)
    requires
        0 <= j < n <= o.len(),
        resolved_key(o[j].0, c, t, m) == k,
        forall|l: int| j < l < n ==> resolved_key(#[trigger] o[l].0, c, t, m) != k,
    ensures
        last_resolving_to(o, c, t, m, k, n) == j,
    decreases n,
{
    if n - 1 > j {
        lemma_last_resolving_from(o, c, t, m, k, j, n - 1);
    }
}

} // verus!
