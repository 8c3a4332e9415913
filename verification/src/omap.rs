use vstd::prelude::*;

verus! {

/// Sequences of `(key, value)` pairs serve as the model of an ordered map:
/// entries keep their insertion order, and a lookup takes the first entry
/// whose key matches.
/// Inserting an existing key replaces its value in place; inserting a new key
/// appends the entry.
pub open spec fn map_insert<V>(s: Seq<(Seq<char>, V)>, k: Seq<char>, v: V) -> Seq<
    (Seq<char>, V),
>
    decreases s.len(),
{
    if s.len() == 0 {
        seq![(k, v)]
    } else if s[0].0 == k {
        seq![(k, v)] + s.drop_first()
    } else {
        seq![s[0]] + map_insert(s.drop_first(), k, v)
    }
}

/// The value at key `k`: the first entry whose key equals `k`, if any.
pub open spec fn map_get<V>(s: Seq<(Seq<char>, V)>, k: Seq<char>) -> Option<V>
    decreases s.len(),
{
    if s.len() == 0 {
        None
    } else if s[0].0 == k {
        Some(s[0].1)
    } else {
        map_get(s.drop_first(), k)
    }
}

pub open spec fn has_key<V>(s: Seq<(Seq<char>, V)>, k: Seq<char>) -> bool {
    map_get(s, k) is Some
}

/// No two entries share a key.
pub open spec fn distinct_keys<V>(s: Seq<(Seq<char>, V)>) -> bool {
    forall|i: int, j: int| 0 <= i < j < s.len() ==> s[i].0 != s[j].0
}

/// When `k` first occurs at position `j`, inserting at `k` replaces that
/// entry in place.
pub proof fn lemma_map_insert_found<V>(s: Seq<(Seq<char>, V)>, k: Seq<char>, v: V, j: int)
    requires
        0 <= j < s.len(),
        s[j].0 == k,
        forall|i: int| 0 <= i < j ==> s[i].0 != k,
    ensures
        map_insert(s, k, v) == s.update(j, (k, v)),
    decreases s.len(),
{
    if j == 0 {
        assert(map_insert(s, k, v) =~= s.update(0, (k, v)));
    } else {
        lemma_map_insert_found(s.drop_first(), k, v, j - 1);
        assert(map_insert(s, k, v) =~= s.update(j, (k, v)));
    }
}

/// When `k` occurs nowhere, inserting at `k` appends the entry.
pub proof fn lemma_map_insert_not_found<V>(s: Seq<(Seq<char>, V)>, k: Seq<char>, v: V)
    requires
        forall|i: int| 0 <= i < s.len() ==> s[i].0 != k,
    ensures
        map_insert(s, k, v) == s.push((k, v)),
    decreases s.len(),
{
    if s.len() == 0 {
        assert(map_insert(s, k, v) =~= s.push((k, v)));
    } else {
        lemma_map_insert_not_found(s.drop_first(), k, v);
        assert(map_insert(s, k, v) =~= s.push((k, v)));
    }
}

/// How a lookup reads through an insertion: the inserted key now yields the
/// inserted value, and every other key is unaffected.
pub proof fn lemma_map_get_insert<V>(s: Seq<(Seq<char>, V)>, k: Seq<char>, v: V, k2: Seq<char>)
    ensures
        map_get(map_insert(s, k, v), k2) == (if k2 == k {
            Some(v)
        } else {
            map_get(s, k2)
        }),
    decreases s.len(),
{
    if s.len() == 0 {
        assert(map_insert(s, k, v) =~= seq![(k, v)]);
    } else if s[0].0 == k {
        let t = seq![(k, v)] + s.drop_first();
        assert(map_insert(s, k, v) == t);
        assert(t[0] == (k, v));
        assert(t.drop_first() =~= s.drop_first());
        assert(k2 != k ==> map_get(s, k2) == map_get(s.drop_first(), k2));
    } else {
        let t = seq![s[0]] + map_insert(s.drop_first(), k, v);
        assert(map_insert(s, k, v) == t);
        assert(t[0] == s[0]);
        assert(t.len() > 0);
        assert(t.drop_first() =~= map_insert(s.drop_first(), k, v));
        lemma_map_get_insert(s.drop_first(), k, v, k2);
        if t[0].0 == k2 {
            assert(map_get(t, k2) == Some(s[0].1));
            assert(map_get(s, k2) == Some(s[0].1));
        } else {
            assert(map_get(t, k2) == map_get(map_insert(s.drop_first(), k, v), k2));
            assert(map_get(s, k2) == map_get(s.drop_first(), k2));
        }
    }
}

/// Inserting never breaks key distinctness.
pub proof fn lemma_map_insert_distinct<V>(s: Seq<(Seq<char>, V)>, k: Seq<char>, v: V)
    requires
        distinct_keys(s),
    ensures
        distinct_keys(map_insert(s, k, v)),
    decreases s.len(),
{
    if s.len() == 0 {
    } else if s[0].0 == k {
        let t = seq![(k, v)] + s.drop_first();
        assert forall|i: int, j: int| 0 <= i < j < t.len() implies t[i].0 != t[j].0 by {
            assert(forall|i: int| 0 <= i < s.drop_first().len() ==> s.drop_first()[i]
                == s[i + 1]);
        }
    } else {
        assert(forall|i: int| 0 <= i < s.drop_first().len() ==> s.drop_first()[i] == s[i + 1]);
        lemma_map_insert_distinct(s.drop_first(), k, v);
        lemma_map_insert_same_keys(s.drop_first(), k, v);
        let t = seq![s[0]] + map_insert(s.drop_first(), k, v);
        assert forall|i: int, j: int| 0 <= i < j < t.len() implies t[i].0 != t[j].0 by {
            if i == 0 {
                assert(has_key(map_insert(s.drop_first(), k, v), t[j].0));
                assert(t[j].0 == k || has_key(s.drop_first(), t[j].0));
                if has_key(s.drop_first(), t[j].0) {
                    lemma_map_get_index(s.drop_first(), t[j].0);
                }
            }
        }
    }
}

/// The keys after an insertion are the old keys together with `k`.
pub proof fn lemma_map_insert_same_keys<V>(s: Seq<(Seq<char>, V)>, k: Seq<char>, v: V)
    ensures
        forall|j: int| 0 <= j < map_insert(s, k, v).len() ==> has_key(
            map_insert(s, k, v),
            #[trigger] map_insert(s, k, v)[j].0,
        ),
        forall|k2: Seq<char>| #[trigger] has_key(map_insert(s, k, v), k2) <==> (k2 == k || has_key(
            s,
            k2,
        )),
{
    assert forall|k2: Seq<char>| #[trigger] has_key(map_insert(s, k, v), k2) implies (k2 == k
        || has_key(s, k2)) by {
        lemma_map_get_insert(s, k, v, k2);
    }
    assert forall|k2: Seq<char>| (k2 == k || has_key(s, k2)) implies #[trigger] has_key(
        map_insert(s, k, v),
        k2,
    ) by {
        lemma_map_get_insert(s, k, v, k2);
    }
    assert forall|j: int| 0 <= j < map_insert(s, k, v).len() implies has_key(
        map_insert(s, k, v),
        #[trigger] map_insert(s, k, v)[j].0,
    ) by {
        lemma_index_has_key(map_insert(s, k, v), j);
    }
}

/// Every value in the map after an insertion is either the inserted value
/// or a value that was already there.
pub proof fn lemma_map_insert_values<V>(s: Seq<(Seq<char>, V)>, k: Seq<char>, v: V)
    ensures
        forall|i: int|
            0 <= i < map_insert(s, k, v).len() ==> (#[trigger] map_insert(s, k, v)[i].1 == v
                || exists|j: int| 0 <= j < s.len() && s[j].1 == map_insert(s, k, v)[i].1),
    decreases s.len(),
{
    if s.len() == 0 {
    } else if s[0].0 == k {
        let t = seq![(k, v)] + s.drop_first();
        assert forall|i: int| 0 <= i < t.len() implies (#[trigger] t[i].1 == v || exists|j: int|
            0 <= j < s.len() && s[j].1 == t[i].1) by {
            if i > 0 {
                assert(t[i] == s[i]);
            }
        }
    } else {
        lemma_map_insert_values(s.drop_first(), k, v);
        let r = map_insert(s.drop_first(), k, v);
        let t = seq![s[0]] + r;
        assert forall|i: int| 0 <= i < t.len() implies (#[trigger] t[i].1 == v || exists|j: int|
            0 <= j < s.len() && s[j].1 == t[i].1) by {
            if i > 0 {
                assert(t[i] == r[i - 1]);
                if r[i - 1].1 != v {
                    let j = choose|j: int|
                        0 <= j < s.drop_first().len() && s.drop_first()[j].1 == r[i - 1].1;
                    assert(s[j + 1].1 == t[i].1);
                }
            }
        }
    }
}

/// An entry's own key is always found by a lookup.
pub proof fn lemma_index_has_key<V>(s: Seq<(Seq<char>, V)>, j: int)
    requires
        0 <= j < s.len(),
    ensures
        has_key(s, s[j].0),
    decreases s.len(),
{
    if j > 0 && s[0].0 != s[j].0 {
        lemma_index_has_key(s.drop_first(), j - 1);
    }
}

/// A successful lookup comes from some entry of the sequence.
pub proof fn lemma_map_get_index<V>(s: Seq<(Seq<char>, V)>, k: Seq<char>)
    requires
        has_key(s, k),
    ensures
        exists|i: int| 0 <= i < s.len() && s[i].0 == k && map_get(s, k) == Some(s[i].1),
    decreases s.len(),
{
    if s.len() > 0 && s[0].0 != k {
        lemma_map_get_index(s.drop_first(), k);
        let i = choose|i: int|
            0 <= i < s.drop_first().len() && s.drop_first()[i].0 == k && map_get(
                s.drop_first(),
                k,
            ) == Some(s.drop_first()[i].1);
        assert(s[i + 1].0 == k && map_get(s, k) == Some(s[i + 1].1));
    }
}

} // verus!
