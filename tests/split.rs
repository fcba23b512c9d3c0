use house_price_predictor::error::DataError;
use house_price_predictor::features::{feature_names, target_name, FEATURE_COUNT};
use house_price_predictor::split::{
    split_features_and_target, split_with_order, train_row_count, train_test_split, TestFraction,
};
use house_price_predictor::table::{Column, Table};

const NAMES: [&str; 14] = [
    "crim", "zn", "indus", "chas", "nox", "rm", "age", "dis", "rad", "tax", "ptratio", "b",
    "lstat", "medv",
];

/// A table with the predictor and target columns; `crim` holds the row number.
fn housing(rows: usize) -> Table {
    let columns = NAMES
        .iter()
        .enumerate()
        .map(|(j, n)| Column {
            name: n.to_string(),
            values: (0..rows).map(|i| ((i * 100 + j) as f64).to_bits()).collect(),
        })
        .collect();
    Table::new(columns).unwrap()
}

fn row_ids(t: &Table) -> Vec<usize> {
    let j = t.find_column(&"crim".to_string()).unwrap();
    t.column_values(j).iter().map(|b| (f64::from_bits(*b) as usize) / 100).collect()
}

#[test]
fn hundred_rows_split_eighty_twenty_the_same_way_each_time() {
    let t = housing(100);
    let f = TestFraction::new(1, 5).unwrap();
    let (train, test) = train_test_split(&t, f, 42).unwrap();
    assert_eq!(train.row_count(), 80);
    assert_eq!(test.row_count(), 20);
    let (train2, test2) = train_test_split(&t, f, 42).unwrap();
    assert_eq!(row_ids(&train), row_ids(&train2));
    assert_eq!(row_ids(&test), row_ids(&test2));
}

#[test]
fn every_row_lands_on_exactly_one_side() {
    let t = housing(37);
    let f = TestFraction::new(3, 10).unwrap();
    let (train, test) = train_test_split(&t, f, 7).unwrap();
    let mut all = row_ids(&train);
    all.extend(row_ids(&test));
    all.sort();
    assert_eq!(all, (0..37).collect::<Vec<usize>>());
    assert_eq!(train.column_count(), 14);
    assert_eq!(test.column_count(), 14);
}

#[test]
fn the_split_shuffles_rows() {
    let t = housing(100);
    let f = TestFraction::new(1, 5).unwrap();
    let (train, _) = train_test_split(&t, f, 42).unwrap();
    assert_ne!(row_ids(&train), (0..80).collect::<Vec<usize>>());
}

#[test]
fn fewer_than_two_rows_is_insufficient() {
    let f = TestFraction::new(1, 5).unwrap();
    assert_eq!(train_test_split(&housing(1), f, 1).err(), Some(DataError::InsufficientData));
    assert_eq!(train_test_split(&housing(0), f, 1).err(), Some(DataError::InsufficientData));
    assert!(train_test_split(&housing(2), f, 1).is_ok());
}

#[test]
fn test_fraction_must_lie_strictly_between_zero_and_one() {
    assert_eq!(TestFraction::new(0, 5).err(), Some(DataError::InvalidTestFraction));
    assert_eq!(TestFraction::new(5, 5).err(), Some(DataError::InvalidTestFraction));
    assert_eq!(TestFraction::new(6, 5).err(), Some(DataError::InvalidTestFraction));
    let f = TestFraction::new(2, 5).unwrap();
    assert_eq!((f.numerator(), f.denominator()), (2, 5));
}

#[test]
fn train_share_is_rounded_up() {
    assert_eq!(train_row_count(100, TestFraction::new(1, 5).unwrap()), 80);
    assert_eq!(train_row_count(10, TestFraction::new(1, 3).unwrap()), 7);
    assert_eq!(train_row_count(2, TestFraction::new(1, 10).unwrap()), 2);
    assert_eq!(train_row_count(3, TestFraction::new(1, 2).unwrap()), 2);
    assert_eq!(train_row_count(0, TestFraction::new(1, 2).unwrap()), 0);
}

#[test]
fn a_given_order_decides_the_split() {
    let t = housing(5);
    let f = TestFraction::new(2, 5).unwrap();
    let (train, test) = split_with_order(&t, &vec![4, 2, 0, 1, 3], f).unwrap();
    assert_eq!(row_ids(&train), vec![4, 2, 0]);
    assert_eq!(row_ids(&test), vec![1, 3]);
}

#[test]
fn features_and_target_are_projected_in_the_shared_order() {
    let t = housing(3);
    let (x, y) = split_features_and_target(&t).unwrap();
    assert_eq!(x.column_names(), feature_names());
    assert_eq!(x.column_count(), FEATURE_COUNT);
    assert_eq!(y.column_names(), vec![target_name()]);
    assert_eq!(y.cell(2, 0), t.cell(2, 13));
}

#[test]
fn a_missing_required_column_is_named() {
    let t = housing(3);
    let keep: Vec<String> = NAMES.iter().filter(|n| **n != "rm").map(|n| n.to_string()).collect();
    let without_rm = t.select(&keep).unwrap();
    assert_eq!(
        split_features_and_target(&without_rm).err(),
        Some(DataError::MissingColumn("rm".to_string()))
    );
    let keep: Vec<String> = NAMES[..13].iter().map(|n| n.to_string()).collect();
    let without_target = t.select(&keep).unwrap();
    assert_eq!(
        split_features_and_target(&without_target).err(),
        Some(DataError::MissingColumn("medv".to_string()))
    );
}

#[test]
fn features_and_target_join_back_to_the_table() {
    let t = housing(4);
    let (x, y) = split_features_and_target(&t).unwrap();
    let back = x.join(&y).unwrap();
    assert_eq!(back.column_names(), t.column_names());
    for j in 0..t.column_count() {
        assert_eq!(back.column_values(j), t.column_values(j));
    }
}

#[test]
fn another_seed_gives_another_split() {
    let t = housing(100);
    let f = TestFraction::new(1, 5).unwrap();
    let (a, _) = train_test_split(&t, f, 1).unwrap();
    let (b, _) = train_test_split(&t, f, 2).unwrap();
    assert_ne!(row_ids(&a), row_ids(&b));
}
