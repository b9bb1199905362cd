use columnar::column::{Column, FactorData};
use columnar::query::Queryable;

fn colors() -> Column<String> {
    Column::factor(FactorData::from_strs(&["red", "red", "blue"]))
}

#[test]
fn factor_dedup_keeps_first_seen_order() {
    let f = FactorData::from_strs(&["b", "a", "b", "c", "a"]);
    assert_eq!(f.len(), 5);
    assert_eq!(f.indices(), &[0_usize, 1, 0, 2, 1][..]);
    assert_eq!(f.factors(), &["b", "a", "c"][..]);
}

#[test]
fn factor_from_empty_input() {
    let f = FactorData::from_strs(&[]);
    assert_eq!(f.len(), 0);
    assert!(f.factors().is_empty());
}

#[test]
fn factor_new_extends_given_palette() {
    let f = FactorData::new(vec![String::from("x"), String::from("y")], &["y", "z", "x", "z"]);
    assert_eq!(f.indices(), &[1_usize, 2, 0, 2][..]);
    assert_eq!(f.factors(), &["x", "y", "z"][..]);
}

#[test]
fn factor_add_row_reuses_or_grows() {
    let mut f = FactorData::from_strs(&["a"]);
    f.add_row("a");
    f.add_row("b");
    assert_eq!(f.indices(), &[0_usize, 0, 1][..]);
    assert_eq!(f.factors(), &["a", "b"][..]);
}

#[test]
fn factor_push_generic_values() {
    let mut f = FactorData::from_strs(&[]);
    f.push(String::from("q"));
    f.push(String::from("q"));
    assert_eq!(f.indices(), &[0_usize, 0][..]);
}

#[test]
fn factor_position_probe() {
    let f = FactorData::from_strs(&["p", "q"]);
    assert_eq!(f.position(&String::from("q")), Some(1));
    assert_eq!(f.position(&String::from("r")), None);
}

#[test]
fn variant_accessors() {
    let mut dense: Column<i32> = Column::from(vec![1, 2]);
    let factor = colors();
    assert!(matches!(dense, Column::Vec(_)));
    assert!(matches!(factor, Column::Factor(_)));
    assert_eq!(dense.as_ref(), &[1, 2][..]);
    assert_eq!(factor.as_factor().len(), 3);
    dense.as_mut()[0] = 9;
    assert_eq!(*dense.get(0).unwrap(), 9);
}

#[test]
fn get_past_the_end_is_none() {
    let dense: Column<i32> = Column::from(vec![1, 2]);
    assert_eq!(dense.get(2), None);
    assert_eq!(colors().get(3), None);
    let empty: Column<u64> = Column::from(vec![]);
    assert_eq!(empty.get(0), None);
    assert_eq!(empty.len(), 0);
}

#[test]
fn at_reads_a_row() {
    let dense: Column<i64> = Column::from(vec![4, 5, 6]);
    assert_eq!(*dense.at(2), 6);
    assert_eq!(colors().at(1), "red");
}

#[test]
fn round_trip_dense_and_factor() {
    let mut dense: Column<i64> = Column::from(vec![1, 2, 3]);
    dense.set(1, 42);
    assert_eq!(*dense.get(1).unwrap(), 42);
    assert_eq!(dense.to_vec(&[0, 1, 2]), [1, 42, 3]);

    let mut factor = colors();
    factor.set(2, String::from("red"));
    assert_eq!(factor.get(2).unwrap(), "red");
    assert_eq!(factor.to_vec(&[0, 1, 2]), ["red", "red", "red"]);
    assert_eq!(factor.as_factor().factors(), &["red", "blue"][..]);
    assert_eq!(factor.as_factor().indices(), &[0_usize, 0, 0][..]);
}

#[test]
fn factor_apply_keeps_palette() {
    let mut factor = colors();
    factor.apply(&[0, 2, 0], |_, x: &String| if x == "red" { String::from("blue") } else { String::from("red") });
    assert_eq!(factor.to_vec(&[0, 1, 2]), ["red", "red", "red"]);
    assert_eq!(factor.as_factor().factors(), &["red", "blue"][..]);
    assert_eq!(factor.as_factor().indices(), &[0_usize, 0, 0][..]);
}

#[test]
fn column_select_on_factor() {
    let factor = colors();
    let picked = factor.select(&[2, 0]);
    assert_eq!(picked.len(), 2);
    assert_eq!(picked[0], "blue");
    assert_eq!(picked[1], "red");
}

#[test]
fn factor_position_is_first_match() {
    let f = FactorData::new(vec![String::from("k"), String::from("m")], &["m", "k"]);
    assert_eq!(f.position(&String::from("m")), Some(1));
    assert_eq!(f.position(&String::from("k")), Some(0));
}
