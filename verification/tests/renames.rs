use case_changer::{CaseChanger, CaseConvention, RenameBehavior, RenameTable, TreeValue};

#[test]
fn manual_rename_by_value_beats_convention() {
    let value = TreeValue::Object(vec![(String::from("userId"), TreeValue::Number(5))]);
    let expected = TreeValue::Object(vec![(String::from("id"), TreeValue::Number(5))]);

    let mut table = RenameTable::new();
    table.insert(String::from("id"), String::from("userId"));

    let mut changer = CaseChanger::new(value, CaseConvention::Snake).unwrap();
    changer.with_manual_renames(table);
    changer.with_custom_rename_behavior(RenameBehavior::ByValue);

    assert_eq!(expected, changer.convert());
}

#[test]
fn manual_rename_by_key_beats_convention() {
    // The override replaces the case conversion entirely; it is not
    // case-converted on top, and untouched keys still are.
    let value = TreeValue::Object(vec![
        (String::from("myKey"), TreeValue::Number(1)),
        (String::from("otherKey"), TreeValue::Number(2)),
    ]);
    let expected = TreeValue::Object(vec![
        (String::from("KeptAsGiven"), TreeValue::Number(1)),
        (String::from("other_key"), TreeValue::Number(2)),
    ]);

    let mut table = RenameTable::new();
    table.insert(String::from("myKey"), String::from("KeptAsGiven"));

    let mut changer = CaseChanger::new(value, CaseConvention::Snake).unwrap();
    changer.with_manual_renames(table);

    assert_eq!(expected, changer.convert());
}

#[test]
fn by_key_mode_ignores_value_side() {
    // Under the default by-key behavior the value side of the table does not
    // match, so the automatic conversion applies.
    let value = TreeValue::Object(vec![(String::from("userId"), TreeValue::Number(5))]);
    let expected = TreeValue::Object(vec![(String::from("user_id"), TreeValue::Number(5))]);

    let mut table = RenameTable::new();
    table.insert(String::from("id"), String::from("userId"));

    let mut changer = CaseChanger::new(value, CaseConvention::Snake).unwrap();
    changer.with_manual_renames(table);

    assert_eq!(expected, changer.convert());
}

#[test]
fn last_write_wins_on_collision() {
    // Both keys resolve to "my_key"; the later sibling's value survives, at
    // the position where the key first appeared.
    let value = TreeValue::Object(vec![
        (String::from("myKey"), TreeValue::Number(1)),
        (String::from("zz"), TreeValue::Number(3)),
        (String::from("MyKey"), TreeValue::Number(2)),
    ]);
    let expected = TreeValue::Object(vec![
        (String::from("my_key"), TreeValue::Number(2)),
        (String::from("zz"), TreeValue::Number(3)),
    ]);

    let case_changed = CaseChanger::new(value, CaseConvention::Snake).unwrap().convert();

    assert_eq!(expected, case_changed);
}

#[test]
fn table_insert_replaces_existing_key() {
    let value = TreeValue::Object(vec![(String::from("id"), TreeValue::Number(1))]);
    let expected = TreeValue::Object(vec![(String::from("two"), TreeValue::Number(1))]);

    let mut table = RenameTable::new();
    table.insert(String::from("id"), String::from("one"));
    table.insert(String::from("id"), String::from("two"));

    let mut changer = CaseChanger::new(value, CaseConvention::Snake).unwrap();
    changer.with_manual_renames(table);

    assert_eq!(expected, changer.convert());
}

#[test]
fn by_value_first_entry_wins_on_duplicate_values() {
    // Two entries carry the same value side; the earlier inserted entry
    // supplies the replacement.
    let value = TreeValue::Object(vec![(String::from("dup"), TreeValue::Number(1))]);
    let expected = TreeValue::Object(vec![(String::from("a"), TreeValue::Number(1))]);

    let mut table = RenameTable::new();
    table.insert(String::from("a"), String::from("dup"));
    table.insert(String::from("b"), String::from("dup"));

    let mut changer = CaseChanger::new(value, CaseConvention::Snake).unwrap();
    changer.with_manual_renames(table);
    changer.with_custom_rename_behavior(RenameBehavior::ByValue);

    assert_eq!(expected, changer.convert());
}

#[test]
fn renames_apply_at_every_depth() {
    let value = TreeValue::Object(vec![(
        String::from("outerKey"),
        TreeValue::Array(vec![TreeValue::Object(vec![(
            String::from("innerKey"),
            TreeValue::Null,
        )])]),
    )]);
    let expected = TreeValue::Object(vec![(
        String::from("outer_key"),
        TreeValue::Array(vec![TreeValue::Object(vec![(
            String::from("renamed"),
            TreeValue::Null,
        )])]),
    )]);

    let mut table = RenameTable::new();
    table.insert(String::from("innerKey"), String::from("renamed"));

    let mut changer = CaseChanger::new(value, CaseConvention::Snake).unwrap();
    changer.with_manual_renames(table);

    assert_eq!(expected, changer.convert());
}

#[test]
fn table_lookups_by_each_side() {
    let mut table = RenameTable::new();
    table.insert(String::from("a"), String::from("b"));

    assert_eq!(Some(String::from("b")), table.lookup_by_key(&String::from("a")));
    assert_eq!(None, table.lookup_by_key(&String::from("b")));
    assert_eq!(Some(String::from("a")), table.lookup_by_value(&String::from("b")));
    assert_eq!(None, table.lookup_by_value(&String::from("a")));
}
