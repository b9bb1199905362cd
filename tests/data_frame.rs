use columnar::data_frame::DataFrame;

#[test]
fn data_frame_get_values() {
    let mut data = DataFrame::new();
    data.add_column("test".into(), vec![0, 1]);

    assert_eq!(data.get::<i32>(0)[0], 0);
    assert_eq!(data.get::<i32>(0)[1], 1);

    assert_eq!(data.select::<i32>("test")[0], 0);
    assert_eq!(data.select::<i32>("test")[1], 1);
}

#[test]
fn data_frame_set_values() {
    let mut data = DataFrame::new();
    data.add_column("test".into(), vec![0; 2]);

    data.get_mut::<i32>(0)[0] = 100;
    data.get_mut::<i32>(0)[1] = 200;

    assert_eq!(data.get::<i32>(0)[0], 100);
    assert_eq!(data.get::<i32>(0)[1], 200);

    data.select_mut::<i32>("test")[0] = 10;
    data.select_mut::<i32>("test")[1] = 20;

    assert_eq!(data.select::<i32>("test")[0], 10);
    assert_eq!(data.select::<i32>("test")[1], 20);
}

#[test]
fn data_frame_add_column_replaces_same_name() {
    let mut data = DataFrame::new();
    data.add_column("a".into(), vec![1_i64]);
    data.add_column("b".into(), vec![2_i64]);
    data.add_column("a".into(), vec![3_i64, 4]);
    assert_eq!(data.index_of("a"), Some(0));
    assert_eq!(data.index_of("b"), Some(1));
    assert_eq!(data.index_of("c"), None);
    assert_eq!(data.select::<i64>("a"), &[3_i64, 4][..]);
    assert_eq!(data.get::<i64>(0), &[3_i64, 4][..]);
    assert_eq!(data.get::<i64>(1), &[2_i64][..]);
}

#[test]
fn data_frame_replacement_may_change_type() {
    let mut data = DataFrame::new();
    data.add_column("a".into(), vec![1_i32]);
    data.add_column("a".into(), vec![String::from("s")]);
    assert_eq!(data.index_of("a"), Some(0));
    assert_eq!(data.select::<String>("a"), &[String::from("s")][..]);
}

#[test]
fn data_frame_columns_of_other_types() {
    let mut data = DataFrame::new();
    data.add_column("n".into(), vec![0_i32, 1]);
    data.add_column("s".into(), vec![String::from("x")]);
    data.add_column("u".into(), vec![7_u64]);
    assert_eq!(data.get::<i32>(0), &[0, 1][..]);
    assert_eq!(data.select::<String>("s"), &[String::from("x")][..]);
    data.select_mut::<u64>("u")[0] = 8;
    assert_eq!(data.get::<u64>(2), &[8_u64][..]);
    assert_eq!(data.get::<i32>(0), &[0, 1][..]);
}
