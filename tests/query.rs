use columnar::query::Queryable;

#[test]
fn select() {
    let data = vec![0, 1, 2, 3, 4, 5, 6, 7, 8, 9];

    let first_nine: Vec<usize> = (0..9).collect();
    assert_eq!(data.to_vec(&first_nine), &data[0..9]);
    assert_eq!(data.to_vec(&[1, 3]), [1, 3]);
}

#[test]
fn apply() {
    let mut data = vec![0, 1, 2, 3, 4, 5, 6, 7, 8, 9];

    let middle: Vec<usize> = (2..8).collect();
    data.apply(&middle, |_, x: &i32| x + 1);
    assert_eq!(data, [0, 1, 3, 4, 5, 6, 7, 8, 8, 9]);
}

#[test]
fn select_keeps_order_and_repeats() {
    let data = vec![10, 20, 30];
    let picked = data.select(&[2, 0, 2]);
    assert_eq!(picked, vec![&30, &10, &30]);
    assert!(data.select(&[]).is_empty());
}

#[test]
fn apply_later_write_sees_earlier_one() {
    let mut data = vec![1, 5, 7];
    data.apply(&[0, 0, 2], |_, x: &i32| x * 10);
    assert_eq!(data, [100, 5, 70]);
}

#[test]
fn apply_passes_the_index() {
    let mut data = vec![0_i64; 4];
    data.apply(&[3, 1], |i, x: &i64| *x + i as i64);
    assert_eq!(data, [0, 1, 0, 3]);
}

#[test]
fn clone_to_appends_after_existing() {
    let data = vec![String::from("a"), String::from("b")];
    let mut out = vec![String::from("z")];
    data.clone_to(&[1, 1, 0], &mut out);
    assert_eq!(out, ["z", "b", "b", "a"]);
}
