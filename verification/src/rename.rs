use vstd::prelude::*;

use crate::omap::{map_get, map_insert};

verus! {

/// Which side of a rename-table entry is matched against an object key
/// during traversal: the key side (with the value side as replacement) or
/// the value side (with the key side as replacement).
#[derive(Copy, Clone, Debug)]
pub enum RenameBehavior {
    ByKey,
    ByValue,
}

impl Default for RenameBehavior {
    fn default() -> (r: Self)
        ensures
            r is ByKey,
    {
        RenameBehavior::ByKey
    }
}

/// The replacement for `k` read off the value side: the key side of the
/// first entry whose value equals `k`, if any.
pub open spec fn reverse_get(t: Seq<(Seq<char>, Seq<char>)>, k: Seq<char>) -> Option<Seq<char>>
    decreases t.len(),
{
    if t.len() == 0 {
        None
    } else if t[0].1 == k {
        Some(t[0].0)
    } else {
        reverse_get(t.drop_first(), k)
    }
}

/// The manual override for key `k`, if the table has one under behavior `m`.
pub open spec fn manual_override(
    t: Seq<(Seq<char>, Seq<char>)>,
    k: Seq<char>,
    m: RenameBehavior,
) -> Option<Seq<char>> {
    match m {
        RenameBehavior::ByKey => map_get(t, k),
        RenameBehavior::ByValue => reverse_get(t, k),
    }
}

pub open spec fn pairs_model(es: Seq<(String, String)>) -> Seq<(Seq<char>, Seq<char>)> {
    Seq::new(
        es.len(),
        |i: int|
            if 0 <= i < es.len() {
                (es[i].0@, es[i].1@)
            } else {
                (Seq::empty(), Seq::empty())
            },
    )
}

/// A table of manual renames: an ordered mapping from one string to another.
/// Entries keep their insertion order, so lookups that scan the value side
/// resolve ties deterministically by entry order.
pub struct RenameTable {
    entries: Vec<(String, String)>,
}

impl View for RenameTable {
    type V = Seq<(Seq<char>, Seq<char>)>;

    closed spec fn view(&self) -> Seq<(Seq<char>, Seq<char>)> {
        pairs_model(self.entries@)
    }
}

impl RenameTable {
    pub fn new() -> (r: Self)
        ensures
            r@ == Seq::<(Seq<char>, Seq<char>)>::empty(),
    {
        let r = RenameTable { entries: Vec::new() };
        proof {
            assert(r@ =~= Seq::<(Seq<char>, Seq<char>)>::empty());
        }
        r
    }

    /// Add one manual rename. An existing entry for the same key is replaced
    /// in place; otherwise the entry is appended.
    pub fn insert(&mut self, key: String, value: String)
        ensures
            final (self)@ == map_insert(old(self)@, key@, value@),
    {
        let mut j: usize = 0;
        while j < self.entries.len()
            invariant
                j <= self.entries@.len(),
                forall|i: int| 0 <= i < j ==> self.entries@[i].0@ != key@,
                *self == *old(self),
            decreases self.entries@.len() - j,
        {
            if self.entries[j].0 == key {
                proof {
                    crate::omap::lemma_map_insert_found(old(self)@, key@, value@, j as int);
                }
                self.entries.remove(j);
                self.entries.insert(j, (key, value));
                proof {
                    assert(pairs_model(self.entries@) =~= old(self)@.update(
                        j as int,
                        (key@, value@),
                    ));
                }
                return ;
            }
            j += 1;
        }
        proof {
            assert(forall|i: int| 0 <= i < old(self)@.len() ==> old(self)@[i].0 == self.entries@[
                i].0@);
            crate::omap::lemma_map_insert_not_found(old(self)@, key@, value@);
        }
        self.entries.push((key, value));
        proof {
            assert(pairs_model(self.entries@) =~= old(self)@.push((key@, value@)));
        }
    }

    /// Look the key up on the key side of the table.
    pub fn lookup_by_key(&self, key: &String) -> (r: Option<String>)
        ensures
            r.deep_view() == map_get(self@, key@),
    {
        let mut j: usize = 0;
        proof {
            assert(self@.skip(0) =~= self@);
        }
        while j < self.entries.len()
            invariant
                j <= self.entries@.len(),
                map_get(self@, key@) == map_get(self@.skip(j as int), key@),
            decreases self.entries@.len() - j,
        {
            proof {
                assert(self@.skip(j as int)[0] == self@[j as int]);
                assert(self@.skip(j as int).drop_first() =~= self@.skip(j as int + 1));
            }
            if self.entries[j].0 == *key {
                return Some(self.entries[j].1.clone());
            }
            j += 1;
        }
        proof {
            assert(self@.skip(j as int) =~= Seq::<(Seq<char>, Seq<char>)>::empty());
        }
        None
    }

    /// Look the key up on the value side of the table; the first entry in
    /// insertion order wins.
    pub fn lookup_by_value(&self, key: &String) -> (r: Option<String>)
        ensures
            r.deep_view() == reverse_get(self@, key@),
    {
        let mut j: usize = 0;
        proof {
            assert(self@.skip(0) =~= self@);
        }
        while j < self.entries.len()
            invariant
                j <= self.entries@.len(),
                reverse_get(self@, key@) == reverse_get(self@.skip(j as int), key@),
            decreases self.entries@.len() - j,
        {
            proof {
                assert(self@.skip(j as int)[0] == self@[j as int]);
                assert(self@.skip(j as int).drop_first() =~= self@.skip(j as int + 1));
            }
            if self.entries[j].1 == *key {
                return Some(self.entries[j].0.clone());
            }
            j += 1;
        }
        proof {
            assert(self@.skip(j as int) =~= Seq::<(Seq<char>, Seq<char>)>::empty());
        }
        None
    }
}

} // verus!
