use house_price_predictor::table::{Column, Table};
use house_price_predictor::training::{
    dense_training_data, row_major, RegressionLoss, TrainingError, TrainingParams, BASELINE_LEARNING_RATE,
};

#[test]
fn the_baseline_parameters() {
    let p = TrainingParams::default();
    assert_eq!(p.max_tree_depth, 6);
    assert_eq!(f64::from_bits(p.learning_rate), 0.3);
    assert_eq!(p.learning_rate, BASELINE_LEARNING_RATE);
    assert_eq!(p.boosting_rounds, 100);
    assert_eq!(p.objective, RegressionLoss::SquaredError);
    assert_eq!(p.validate(), Ok(()));
}

#[test]
fn malformed_parameters_are_refused() {
    let base = TrainingParams::default();
    let zero_depth = TrainingParams { max_tree_depth: 0, ..base };
    assert_eq!(zero_depth.validate(), Err(TrainingError::InvalidParameters));
    let no_rounds = TrainingParams { boosting_rounds: 0, ..base };
    assert_eq!(no_rounds.validate(), Err(TrainingError::InvalidParameters));
    for rate in [0.0f64, -0.1, 1.5, f64::NAN, f64::INFINITY] {
        let p = TrainingParams { learning_rate: rate.to_bits(), ..base };
        assert_eq!(p.validate(), Err(TrainingError::InvalidParameters), "rate {}", rate);
    }
    for rate in [1.0f64, 1e-6, 0.5] {
        let p = TrainingParams { learning_rate: rate.to_bits(), ..base };
        assert_eq!(p.validate(), Ok(()), "rate {}", rate);
    }
}

#[test]
fn cells_are_laid_out_row_by_row() {
    let t = Table::new(vec![
        Column { name: "a".to_string(), values: vec![1, 2, 3] },
        Column { name: "b".to_string(), values: vec![4, 5, 6] },
    ])
    .unwrap();
    assert_eq!(row_major(&t), vec![1, 4, 2, 5, 3, 6]);
}

#[test]
fn training_data_needs_one_target_column_with_the_same_rows() {
    let x = Table::new(vec![
        Column { name: "a".to_string(), values: vec![1, 2] },
        Column { name: "b".to_string(), values: vec![3, 4] },
    ])
    .unwrap();
    let y = Table::new(vec![Column { name: "y".to_string(), values: vec![7, 8] }]).unwrap();
    assert_eq!(dense_training_data(&x, &y), Ok((vec![1, 3, 2, 4], vec![7, 8])));
    assert_eq!(dense_training_data(&x, &x), Err(TrainingError::NonContiguousData));
    let short = Table::new(vec![Column { name: "y".to_string(), values: vec![7] }]).unwrap();
    assert_eq!(dense_training_data(&x, &short), Err(TrainingError::NonContiguousData));
}
