use house_price_predictor::error::DataError;
use house_price_predictor::table::{Column, Table};

fn col(name: &str, values: &[f64]) -> Column {
    Column { name: name.to_string(), values: values.iter().map(|v| v.to_bits()).collect() }
}

#[test]
fn new_table_counts_rows_and_columns() {
    let t = Table::new(vec![col("a", &[1.0, 2.0, 3.0]), col("b", &[4.0, 5.0, 6.0])]).unwrap();
    assert_eq!(t.row_count(), 3);
    assert_eq!(t.column_count(), 2);
    assert_eq!(t.column_names(), vec!["a".to_string(), "b".to_string()]);
}

#[test]
fn table_without_columns_has_no_rows() {
    let t = Table::new(vec![]).unwrap();
    assert_eq!(t.row_count(), 0);
    assert_eq!(t.column_count(), 0);
}

#[test]
fn duplicate_column_names_are_refused() {
    let r = Table::new(vec![col("a", &[1.0]), col("b", &[2.0]), col("a", &[3.0])]);
    assert_eq!(r.err(), Some(DataError::DuplicateColumn("a".to_string())));
}

#[test]
fn ragged_columns_are_refused() {
    let r = Table::new(vec![col("a", &[1.0, 2.0]), col("b", &[2.0])]);
    assert_eq!(r.err(), Some(DataError::RaggedColumns));
}

#[test]
fn take_rows_keeps_the_given_rows_in_order() {
    let t = Table::new(vec![col("a", &[1.0, 2.0, 3.0]), col("b", &[4.0, 5.0, 6.0])]).unwrap();
    let s = t.take_rows(&vec![2, 0]);
    assert_eq!(s.row_count(), 2);
    assert_eq!(s.column_values(0), vec![3.0f64.to_bits(), 1.0f64.to_bits()]);
    assert_eq!(s.column_values(1), vec![6.0f64.to_bits(), 4.0f64.to_bits()]);
    assert_eq!(s.cell(0, 1), 6.0f64.to_bits());
}

#[test]
fn select_orders_columns_as_asked() {
    let t = Table::new(vec![col("a", &[1.0]), col("b", &[2.0]), col("c", &[3.0])]).unwrap();
    let s = t.select(&vec!["c".to_string(), "a".to_string()]).unwrap();
    assert_eq!(s.column_names(), vec!["c".to_string(), "a".to_string()]);
    assert_eq!(s.cell(0, 0), 3.0f64.to_bits());
}

#[test]
fn select_names_the_first_missing_column() {
    let t = Table::new(vec![col("a", &[1.0])]).unwrap();
    let r = t.select(&vec!["a".to_string(), "x".to_string(), "y".to_string()]);
    assert_eq!(r.err(), Some(DataError::MissingColumn("x".to_string())));
}

#[test]
fn select_refuses_a_repeated_name() {
    let t = Table::new(vec![col("a", &[1.0])]).unwrap();
    let r = t.select(&vec!["a".to_string(), "a".to_string()]);
    assert_eq!(r.err(), Some(DataError::DuplicateColumn("a".to_string())));
}

#[test]
fn join_places_columns_side_by_side() {
    let a = Table::new(vec![col("a", &[1.0, 2.0])]).unwrap();
    let b = Table::new(vec![col("b", &[3.0, 4.0])]).unwrap();
    let j = a.join(&b).unwrap();
    assert_eq!(j.column_names(), vec!["a".to_string(), "b".to_string()]);
    assert_eq!(j.cell(1, 1), 4.0f64.to_bits());
}

#[test]
fn join_refuses_different_row_counts_and_shared_names() {
    let a = Table::new(vec![col("a", &[1.0, 2.0])]).unwrap();
    let b = Table::new(vec![col("b", &[3.0])]).unwrap();
    assert_eq!(a.join(&b).err(), Some(DataError::RowCountMismatch));
    let c = Table::new(vec![col("a", &[5.0, 6.0])]).unwrap();
    assert_eq!(a.join(&c).err(), Some(DataError::DuplicateColumn("a".to_string())));
}

#[test]
fn find_column_gives_the_position() {
    let t = Table::new(vec![col("a", &[1.0]), col("b", &[2.0])]).unwrap();
    assert_eq!(t.find_column(&"b".to_string()), Some(1));
    assert_eq!(t.find_column(&"z".to_string()), None);
}

#[test]
fn duplicate_copies_a_column() {
    let c = col("a", &[1.5, -2.0]);
    let d = c.duplicate();
    assert_eq!(d.name, "a");
    assert_eq!(d.values, c.values);
}
