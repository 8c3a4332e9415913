use case_changer::{CaseChanger, CaseConvention, TreeValue};

#[test]
fn root_array() {
    let value = TreeValue::Array(vec![
        TreeValue::Object(vec![(String::from("myCamel"), TreeValue::Number(1))]),
        TreeValue::Object(vec![(String::from("myCamel"), TreeValue::Number(2))]),
    ]);
    let expected = TreeValue::Array(vec![
        TreeValue::Object(vec![(String::from("my_camel"), TreeValue::Number(1))]),
        TreeValue::Object(vec![(String::from("my_camel"), TreeValue::Number(2))]),
    ]);

    let case_changed = CaseChanger::new(value, CaseConvention::Snake).unwrap().convert();

    assert_eq!(expected, case_changed);
}

#[test]
fn array_of_strings_in_map() {
    let value = TreeValue::Object(vec![(
        String::from("anArray"),
        TreeValue::Array(vec![
            TreeValue::Text(String::from("ObjectOne")),
            TreeValue::Text(String::from("ObjectTwo")),
        ]),
    )]);

    // We expect to keep the array of strings (value of key) without
    // modifications.
    let expected = TreeValue::Object(vec![(
        String::from("an_array"),
        TreeValue::Array(vec![
            TreeValue::Text(String::from("ObjectOne")),
            TreeValue::Text(String::from("ObjectTwo")),
        ]),
    )]);

    let case_changed = CaseChanger::new(value, CaseConvention::Snake).unwrap().convert();

    assert_eq!(expected, case_changed);
}

#[test]
fn nested_objects_fully_recurse() {
    let value = TreeValue::Object(vec![(
        String::from("a"),
        TreeValue::Object(vec![(
            String::from("b"),
            TreeValue::Object(vec![(String::from("myKey"), TreeValue::Bool(true))]),
        )]),
    )]);
    let expected = TreeValue::Object(vec![(
        String::from("a"),
        TreeValue::Object(vec![(
            String::from("b"),
            TreeValue::Object(vec![(String::from("my_key"), TreeValue::Bool(true))]),
        )]),
    )]);

    let case_changed = CaseChanger::new(value, CaseConvention::Snake).unwrap().convert();

    assert_eq!(expected, case_changed);
}

#[test]
fn mixed_array_converts_only_objects() {
    let value = TreeValue::Array(vec![
        TreeValue::Text(String::from("CamelCase")),
        TreeValue::Object(vec![(String::from("myKey"), TreeValue::Number(1))]),
        TreeValue::Number(3),
        TreeValue::Null,
    ]);
    let expected = TreeValue::Array(vec![
        TreeValue::Text(String::from("CamelCase")),
        TreeValue::Object(vec![(String::from("my_key"), TreeValue::Number(1))]),
        TreeValue::Number(3),
        TreeValue::Null,
    ]);

    let case_changed = CaseChanger::new(value, CaseConvention::Snake).unwrap().convert();

    assert_eq!(expected, case_changed);
}

#[test]
fn scalar_roots_unchanged() {
    let n = CaseChanger::new(TreeValue::Number(7), CaseConvention::Snake).unwrap().convert();
    assert_eq!(TreeValue::Number(7), n);

    let b = CaseChanger::new(TreeValue::Bool(false), CaseConvention::Snake).unwrap().convert();
    assert_eq!(TreeValue::Bool(false), b);

    let s = CaseChanger::new(TreeValue::Text(String::from("leaveMeBe")), CaseConvention::Snake)
        .unwrap()
        .convert();
    assert_eq!(TreeValue::Text(String::from("leaveMeBe")), s);

    let z = CaseChanger::new(TreeValue::Null, CaseConvention::Snake).unwrap().convert();
    assert_eq!(TreeValue::Null, z);
}

#[test]
fn empty_containers() {
    let o = CaseChanger::new(TreeValue::Object(vec![]), CaseConvention::Snake)
        .unwrap()
        .convert();
    assert_eq!(TreeValue::Object(vec![]), o);

    let a = CaseChanger::new(TreeValue::Array(vec![]), CaseConvention::Snake)
        .unwrap()
        .convert();
    assert_eq!(TreeValue::Array(vec![]), a);
}

#[test]
fn idempotent_when_already_snake() {
    let value = TreeValue::Object(vec![
        (
            String::from("my_key"),
            TreeValue::Array(vec![
                TreeValue::Number(1),
                TreeValue::Object(vec![(String::from("inner_key"), TreeValue::Null)]),
            ]),
        ),
        (String::from("other"), TreeValue::Bool(true)),
    ]);
    let expected = TreeValue::Object(vec![
        (
            String::from("my_key"),
            TreeValue::Array(vec![
                TreeValue::Number(1),
                TreeValue::Object(vec![(String::from("inner_key"), TreeValue::Null)]),
            ]),
        ),
        (String::from("other"), TreeValue::Bool(true)),
    ]);

    let case_changed = CaseChanger::new(value, CaseConvention::Snake).unwrap().convert();

    assert_eq!(expected, case_changed);
}

#[test]
fn all_conventions() {
    let cases = [
        (CaseConvention::Snake, "my_variable_name"),
        (CaseConvention::Camel, "myVariableName"),
        (CaseConvention::Pascal, "MyVariableName"),
        (CaseConvention::Kebab, "my-variable-name"),
        (CaseConvention::Constant, "MY_VARIABLE_NAME"),
        (CaseConvention::Title, "My Variable Name"),
    ];
    for (convention, expected_key) in cases {
        let value = TreeValue::Object(vec![(String::from("myVariable name"), TreeValue::Null)]);
        let expected = TreeValue::Object(vec![(String::from(expected_key), TreeValue::Null)]);
        let case_changed = CaseChanger::new(value, convention).unwrap().convert();
        assert_eq!(expected, case_changed);
    }
}

#[test]
fn converter_is_reusable() {
    let make = || {
        TreeValue::Object(vec![(String::from("someKey"), TreeValue::Number(9))])
    };
    let mut changer = CaseChanger::new(make(), CaseConvention::Snake).unwrap();
    let first = changer.convert();
    let second = changer.convert();
    assert_eq!(first, second);
    assert_eq!(
        TreeValue::Object(vec![(String::from("some_key"), TreeValue::Number(9))]),
        first
    );
}
