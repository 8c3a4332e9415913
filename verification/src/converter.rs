use vstd::prelude::*;

use crate::convention::{apply_convention, cased, CaseConvention};
use crate::omap::map_insert;
use crate::rename::{manual_override, RenameBehavior, RenameTable};
use crate::value::{elems_model, entries_model, wf_model, TreeModel, TreeValue};

verus! {

/// The key that `k` becomes: the manual override when the table has one
/// under behavior `m`, else the convention applied to `k`. Exactly one of
/// the two is applied; an override is never case-converted on top.
pub open spec fn resolved_key(
    k: Seq<char>,
    c: CaseConvention,
    t: Seq<(Seq<char>, Seq<char>)>,
    m: RenameBehavior,
) -> Seq<char> {
    match manual_override(t, k, m) {
        Some(o) => o,
        None => cased(c, k),
    }
}

/// The converted tree: leaves are copied unchanged, arrays are converted
/// elementwise in order, and each object is rebuilt by inserting its entries
/// in their original order under their resolved keys, so that of two entries
/// resolving to the same key the later one wins.
pub open spec fn convert_model(
    v: TreeModel,
    c: CaseConvention,
    t: Seq<(Seq<char>, Seq<char>)>,
    m: RenameBehavior,
) -> TreeModel
    decreases v, 0int,
{
    match v {
        TreeModel::Null => v,
        TreeModel::Bool(_) => v,
        TreeModel::Number(_) => v,
        TreeModel::Text(_) => v,
        TreeModel::Array(a) => TreeModel::Array(convert_elems(a, c, t, m)),
        TreeModel::Object(o) => TreeModel::Object(
            convert_entries(o, c, t, m, o.len() as int),
        ),
    }
}

/// The conversion of each array element, in the original order.
pub open spec fn convert_elems(
    a: Seq<TreeModel>,
    c: CaseConvention,
    t: Seq<(Seq<char>, Seq<char>)>,
    m: RenameBehavior,
) -> Seq<TreeModel>
    decreases a, 0int,
{
    Seq::new(
        a.len(),
        |i: int|
            if 0 <= i < a.len() {
                convert_model(a[i], c, t, m)
            } else {
                TreeModel::Null
            },
    )
}

/// The object built from the first `n` entries of `o`: each value converted,
/// each key resolved, inserted in order with last-write-wins on collisions.
pub open spec fn convert_entries(
    o: Seq<(Seq<char>, TreeModel)>,
    c: CaseConvention,
    t: Seq<(Seq<char>, Seq<char>)>,
    m: RenameBehavior,
    n: int,
) -> Seq<(Seq<char>, TreeModel)>
    decreases o, n,
{
    if n <= 0 || o.len() < n {
        Seq::empty()
    } else {
        map_insert(
            convert_entries(o, c, t, m, n - 1),
            resolved_key(o[n - 1].0, c, t, m),
            convert_model(o[n - 1].1, c, t, m),
        )
    }
}

/// Rewrites every object key of a tree into a target case convention,
/// honoring a table of manual renames.
pub struct CaseChanger {
    /// The input tree.
    json_in: TreeValue,
    /// The case to convert to.
    case: CaseConvention,
    /// Manual renames that override the automatic conversion.
    manual_renames: RenameTable,
    /// Rename either by key or by value.
    rename_behavior: RenameBehavior,
}

impl CaseChanger {
    pub closed spec fn input(self) -> TreeModel {
        self.json_in@
    }

    pub closed spec fn convention(self) -> CaseConvention {
        self.case
    }

    pub closed spec fn renames(self) -> Seq<(Seq<char>, Seq<char>)> {
        self.manual_renames@
    }

    pub closed spec fn behavior(self) -> RenameBehavior {
        self.rename_behavior
    }

    /// A converter over `json_obj` toward `new_case`, with no manual renames
    /// and the default by-key behavior. Any root is accepted, so this
    /// always succeeds.
    pub fn new(json_obj: TreeValue, new_case: CaseConvention) -> (r: Result<Self, ()>)
        ensures
            r matches Ok(c) && c.input() == json_obj@ && c.convention() == new_case && c.renames()
                == Seq::<(Seq<char>, Seq<char>)>::empty() && c.behavior() is ByKey,
    {
        Ok(
            Self {
                json_in: json_obj,
                case: new_case,
                manual_renames: RenameTable::new(),
                rename_behavior: RenameBehavior::default(),
            },
        )
    }

    /// Replace the active rename table.
    pub fn with_manual_renames(&mut self, rename_list: RenameTable)
        ensures
            final (self).renames() == rename_list@,
            final (self).input() == old(self).input(),
            final (self).convention() == old(self).convention(),
            final (self).behavior() == old(self).behavior(),
    {
        self.manual_renames = rename_list;
    }

    /// Replace the active rename behavior.
    pub fn with_custom_rename_behavior(&mut self, rename_behavior: RenameBehavior)
        ensures
            final (self).behavior() == rename_behavior,
            final (self).input() == old(self).input(),
            final (self).convention() == old(self).convention(),
            final (self).renames() == old(self).renames(),
    {
        self.rename_behavior = rename_behavior;
    }

    /// Produce the converted tree. The converter itself is left unchanged,
    /// so it can be run again, possibly reconfigured.
    pub fn convert(&mut self) -> (r: TreeValue)
        ensures
            r@ == convert_model(
                old(self).input(),
                old(self).convention(),
                old(self).renames(),
                old(self).behavior(),
            ),
            wf_model(r@),
            *final (self) == *old(self),
    {
        let r = Self::internal_convert(
            &self.json_in,
            self.case,
            &self.manual_renames,
            self.rename_behavior,
        );
        proof {
            crate::laws::lemma_convert_wf(
                old(self).input(),
                old(self).convention(),
                old(self).renames(),
                old(self).behavior(),
            );
        }
        r
    }

    /// The manual override for `key`, if the table has one under the
    /// active behavior.
    fn determine_manual_case(
        key: &String,
        manual_renames: &RenameTable,
        rename_behavior: RenameBehavior,
    ) -> (r: Option<String>)
        ensures
            r.deep_view() == manual_override(manual_renames@, key@, rename_behavior),
    {
        match rename_behavior {
            RenameBehavior::ByKey => manual_renames.lookup_by_key(key),
            RenameBehavior::ByValue => manual_renames.lookup_by_value(key),
        }
    }

    /// The output key for `key`: its manual override when one exists, else
    /// the automatic case conversion.
    fn resolve_key(
        key: &String,
        case: CaseConvention,
        manual_renames: &RenameTable,
        rename_behavior: RenameBehavior,
    ) -> (r: String)
        ensures
            r@ == resolved_key(key@, case, manual_renames@, rename_behavior),
    {
        match Self::determine_manual_case(key, manual_renames, rename_behavior) {
            Some(k) => k,
            None => apply_convention(key, case),
        }
    }

    /// Insert into an object under construction: an existing entry for the
    /// same key is replaced in place, otherwise the entry is appended.
    fn entries_insert(entries: &mut Vec<(String, TreeValue)>, key: String, value: TreeValue)
        ensures
            entries_model(final (entries)@) == map_insert(
                entries_model(old(entries)@),
                key@,
                value@,
            ),
    {
        let mut j: usize = 0;
        while j < entries.len()
            invariant
                j <= entries@.len(),
                forall|i: int| 0 <= i < j ==> entries@[i].0@ != key@,
                *entries == *old(entries),
            decreases entries@.len() - j,
        {
            if entries[j].0 == key {
                proof {
                    crate::omap::lemma_map_insert_found(
                        entries_model(old(entries)@),
                        key@,
                        value@,
                        j as int,
                    );
                }
                entries.remove(j);
                entries.insert(j, (key, value));
                proof {
                    assert(entries_model(entries@) =~= entries_model(old(entries)@).update(
                        j as int,
                        (key@, value@),
                    ));
                }
                return ;
            }
            j += 1;
        }
        proof {
            assert(forall|i: int| 0 <= i < old(entries)@.len() ==> entries_model(old(entries)@)[
                i].0 == old(entries)@[i].0@);
            crate::omap::lemma_map_insert_not_found(entries_model(old(entries)@), key@, value@);
        }
        entries.push((key, value));
        proof {
            assert(entries_model(entries@) =~= entries_model(old(entries)@).push((key@, value@)));
        }
    }

    #[verifier::loop_isolation(false)]
    fn internal_convert(
        actual_json: &TreeValue,
        case: CaseConvention,
        manual_renames: &RenameTable,
        rename_behavior: RenameBehavior,
    ) -> (r: TreeValue)
        ensures
            r@ == convert_model(actual_json@, case, manual_renames@, rename_behavior),
        decreases *actual_json,
    {
        match actual_json {
            TreeValue::Null => TreeValue::Null,
            TreeValue::Bool(b) => TreeValue::Bool(*b),
            TreeValue::Number(n) => TreeValue::Number(*n),
            TreeValue::Text(s) => TreeValue::Text(s.clone()),
            TreeValue::Array(arr) => {
                let mut deep_arr: Vec<TreeValue> = Vec::new();
                let mut i: usize = 0;
                while i < arr.len()
                    invariant
                        i <= arr@.len(),
                        deep_arr@.len() == i,
                        forall|l: int| 0 <= l < i ==> (#[trigger] deep_arr@[l])@ == convert_model(
                            arr@[l]@,
                            case,
                            manual_renames@,
                            rename_behavior,
                        ),
                    decreases arr@.len() - i,
                {
                    let deep_value = Self::internal_convert(
                        &arr[i],
                        case,
                        manual_renames,
                        rename_behavior,
                    );
                    deep_arr.push(deep_value);
                    i += 1;
                }
                proof {
                    assert(elems_model(deep_arr@) =~= convert_elems(
                        elems_model(arr@),
                        case,
                        manual_renames@,
                        rename_behavior,
                    ));
                }
                TreeValue::Array(deep_arr)
            }
            TreeValue::Object(obj) => {
                let mut new_entries: Vec<(String, TreeValue)> = Vec::new();
                let mut i: usize = 0;
                proof {
                    assert(entries_model(new_entries@) =~= Seq::<(Seq<char>, TreeModel)>::empty());
                }
                while i < obj.len()
                    invariant
                        i <= obj@.len(),
                        entries_model(new_entries@) == convert_entries(
                            entries_model(obj@),
                            case,
                            manual_renames@,
                            rename_behavior,
                            i as int,
                        ),
                    decreases obj@.len() - i,
                {
                    let inner_value = Self::internal_convert(
                        &obj[i].1,
                        case,
                        manual_renames,
                        rename_behavior,
                    );
                    let new_key = Self::resolve_key(&obj[i].0, case, manual_renames, rename_behavior);
                    proof {
                        assert(entries_model(obj@)[i as int] == (obj@[i as int].0@, obj@[i as int].1@));
                    }
                    Self::entries_insert(&mut new_entries, new_key, inner_value);
                    i += 1;
                }
                TreeValue::Object(new_entries)
            }
        }
    }
}

} // verus!
