use columnar::column::{Column, FactorData};
use columnar::dataframe::{DataFrame, DynamicField};

#[test]
fn dataframe_get_values() {
    let mut data = DataFrame::new();
    data.add_column("nums".into(), Column::from(vec![0, 1]));

    data.add_column("factors".into(),
        Column::factor(FactorData::from_strs(&["apples", "apples", "bananas"]))
    );

    assert!(data.is_type::<i32>("nums"));
    assert!(data.is_type::<String>("factors"));

    assert_eq!(*data.get::<i32>("nums").at(0), 0);
    assert_eq!(*data.get::<i32>("nums").at(1), 1);

    assert_eq!(data.get::<String>("factors").at(0), "apples");
    assert_eq!(data.get::<String>("factors").at(1), "apples");
    assert_eq!(data.get::<String>("factors").at(2), "bananas");
}

#[test]
fn dataframe_set_values() {
    let mut data = DataFrame::new();
    data.add_column("nums".into(), Column::from(vec![0; 2]));

    data.add_column("factors".into(),
        Column::factor(FactorData::from_strs(&["apples", "apples", "bananas"]))
    );

    data.get_mut::<i32>("nums").set(0, 10);
    data.get_mut::<i32>("nums").set(1, 20);

    assert_eq!(*data.get::<i32>("nums").at(0), 10);
    assert_eq!(*data.get::<i32>("nums").at(1), 20);

    data.get_mut::<String>("factors").set(0, "bananas".into());
    data.get_mut::<String>("factors").set(1, "bananas".into());
    data.get_mut::<String>("factors").set(2, "apples".into());

    assert_eq!(data.get::<String>("factors").at(0), "bananas");
    assert_eq!(data.get::<String>("factors").at(1), "bananas");
    assert_eq!(data.get::<String>("factors").at(2), "apples");
}

#[test]
fn registry_scenario_nums_and_colors() {
    let mut data = DataFrame::new();
    data.add_column("nums".into(), Column::from(vec![0, 1]));
    assert_eq!(*data.get::<i32>("nums").at(1), 1);

    data.add_column("colors".into(), Column::factor(FactorData::from_strs(&["red", "red", "blue"])));
    assert!(data.has_dynamic("colors"));
    match data.get_dynamic("colors") {
        DynamicField::String(f) => assert_eq!(f.factors(), &["red", "blue"][..]),
        _ => panic!("colors should be a text factor"),
    }
    assert_eq!(data.get::<String>("colors").at(0), "red");
    assert_eq!(data.get::<String>("colors").at(2), "blue");

    let blue = String::from("blue");
    assert!(data.get::<String>("colors").as_factor().position(&blue).is_some());
    data.get_mut::<String>("colors").set(0, blue);
    assert_eq!(data.get::<String>("colors").at(0), "blue");
    assert_eq!(data.get::<String>("colors").as_factor().factors(), &["red", "blue"][..]);
    assert_eq!(data.get::<String>("colors").as_factor().indices(), &[1_usize, 0, 1][..]);

    // "green" is not in the palette, so writing it is not permitted.
    assert_eq!(data.get::<String>("colors").as_factor().position(&String::from("green")), None);
}

#[test]
fn registry_type_probes() {
    let mut data = DataFrame::new();
    data.add_column("nums".into(), Column::from(vec![5_i64, 6]));
    assert!(data.is_type::<i64>("nums"));
    assert!(!data.is_type::<i32>("nums"));
    assert!(!data.is_type::<String>("nums"));
    assert!(!data.is_type::<u64>("nums"));
    assert!(!data.is_type::<i64>("other"));
    assert!(data.contains("nums"));
    assert!(!data.contains("other"));
    assert_eq!(data.get::<i64>("nums").as_ref(), &[5_i64, 6][..]);
}

#[test]
fn registry_replaces_entry_with_its_type() {
    let mut data = DataFrame::new();
    data.add_column("x".into(), Column::from(vec![1_i32]));
    data.add_column("x".into(), Column::from(vec![String::from("a")]));
    assert!(data.is_type::<String>("x"));
    assert!(!data.is_type::<i32>("x"));
    assert_eq!(data.get::<String>("x").at(0), "a");
}

#[test]
fn dynamic_views() {
    let mut data = DataFrame::new();
    data.add_column("ints".into(), Column::from(vec![0_i64; 2]));
    data.add_column("small".into(), Column::from(vec![0_i32; 2]));
    data.add_column("plain_text".into(), Column::from(vec![String::from("a")]));
    data.add_column("factors".into(),
        Column::factor(FactorData::from_strs(&["apples", "apples", "bananas"]))
    );

    match data.get_dynamic("ints") {
        DynamicField::Int64(ints) => assert_eq!(ints, &[0_i64, 0][..]),
        _ => panic!("ints should be 64-bit integers"),
    }
    match data.get_dynamic("factors") {
        DynamicField::String(f) => {
            assert_eq!(f.indices(), &[0_usize, 0, 1][..]);
            assert_eq!(f.factors(), &[String::from("apples"), String::from("bananas")][..]);
        }
        _ => panic!("factors should be a text factor"),
    }
    assert!(data.has_dynamic("ints"));
    assert!(data.has_dynamic("factors"));
    assert!(!data.has_dynamic("small"));
    assert!(!data.has_dynamic("plain_text"));
    assert!(!data.has_dynamic("missing"));
}
