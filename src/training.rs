use vstd::prelude::*;

use crate::table::{row_count_of, Table};

verus! {

/// The loss that boosting minimises.
#[derive(Debug, Clone, Copy, PartialEq, Eq)]
pub enum RegressionLoss {
    /// Mean squared error.
    SquaredError,
}

/// Why training could not go ahead or finish.
#[derive(Debug, Clone, Copy, PartialEq, Eq)]
pub enum TrainingError {
    /// A hyperparameter is out of range.
    InvalidParameters,
    /// A feature matrix could not be laid out as one contiguous buffer.
    NonContiguousData,
    /// The fit diverged numerically.
    NumericDivergence,
    /// The fitted model could not be serialised.
    ArtifactWriteError,
}

/// The bits of the 64-bit float 0.3, the baseline learning rate.
pub const BASELINE_LEARNING_RATE: u64 = 0x3fd3_3333_3333_3333;

/// The bits of the 64-bit float 1.0.
pub const ONE: u64 = 0x3ff0_0000_0000_0000;

/// Hyperparameters of the boosted-tree trainer. The learning rate holds the
/// bits of a 64-bit float.
#[derive(Debug, Clone, Copy, PartialEq, Eq)]
pub struct TrainingParams {
    pub max_tree_depth: u32,
    pub learning_rate: u64,
    pub boosting_rounds: u32,
    pub objective: RegressionLoss,
}

/// The learning rate lies in `(0, 1]`. Among floats without the sign bit,
/// the order of the bit patterns is the order of the values, and every
/// pattern up to that of 1.0 is a finite number; so this is a comparison
/// of bits.
pub open spec fn learning_rate_valid(bits: u64) -> bool {
    0 < bits <= ONE
}

/// The trainer can run with `p`: trees at least one level deep, at least
/// one round, and a learning rate in `(0, 1]`.
pub open spec fn params_valid(p: TrainingParams) -> bool {
    &&& p.max_tree_depth >= 1
    &&& p.boosting_rounds >= 1
    &&& learning_rate_valid(p.learning_rate)
}

impl Default for TrainingParams {
    /// The baseline: depth 6, learning rate 0.3, 100 rounds, squared error.
    fn default() -> (r: TrainingParams)
        ensures
            r.max_tree_depth == 6,
            r.learning_rate == BASELINE_LEARNING_RATE,
            r.boosting_rounds == 100,
            r.objective == RegressionLoss::SquaredError,
            params_valid(r),
    {
        TrainingParams {
            max_tree_depth: 6,
            learning_rate: BASELINE_LEARNING_RATE,
            boosting_rounds: 100,
            objective: RegressionLoss::SquaredError,
        }
    }
}

impl TrainingParams {
    /// Checks the parameters before any data is touched; fails with
    /// `InvalidParameters` unless they are valid.
    pub fn validate(&self) -> (r: Result<(), TrainingError>)
        ensures
            r is Ok <==> params_valid(*self),
            r is Err ==> r == Err::<(), TrainingError>(TrainingError::InvalidParameters),
    {
        if self.max_tree_depth >= 1 && self.boosting_rounds >= 1 && 0 < self.learning_rate
            && self.learning_rate <= ONE {
            Ok(())
        } else {
            Err(TrainingError::InvalidParameters)
        }
    }
}

/// The cells of `table` row by row: the cell in row `i` and column `j`
/// stands at `i * width + j`.
pub fn row_major(table: &Table) -> (r: Vec<u64>)
    requires
        row_count_of(table@) * table@.len() <= usize::MAX,
    ensures
        r@.len() == row_count_of(table@) * table@.len(),
        forall|i: int, j: int|
            0 <= i < row_count_of(table@) && 0 <= j < table@.len() ==> #[trigger] r@[i
                * table@.len() + j] == table@[j].1[i],
{
    let rows = table.row_count();
    let width = table.column_count();
    let mut r: Vec<u64> = Vec::new();
    let mut i: usize = 0;
    while i < rows
        invariant
            0 <= i <= rows,
            rows == row_count_of(table@),
            width == table@.len(),
            rows * width <= usize::MAX,
            r@.len() == i * width,
            forall|a: int, b: int|
                0 <= a < i && 0 <= b < width ==> #[trigger] r@[a * width + b] == table@[b].1[a],
        decreases rows - i,
    {
        let mut j: usize = 0;
        while j < width
            invariant
                0 <= j <= width,
                0 <= i < rows,
                rows == row_count_of(table@),
                width == table@.len(),
                rows * width <= usize::MAX,
                r@.len() == i * width + j,
                forall|a: int, b: int|
                    0 <= a < i && 0 <= b < width ==> #[trigger] r@[a * width + b] == table@[b].1[a],
                forall|b: int| 0 <= b < j ==> #[trigger] r@[i * width + b] == table@[b].1[i as int],
            decreases width - j,
        {
            let ghost before = r@;
            r.push(table.cell(i, j));
            assert forall|a: int, b: int| 0 <= a < i && 0 <= b < width implies #[trigger] r@[a
                * width + b] == table@[b].1[a] by {
                assert(a * width + b < i * width) by (nonlinear_arith)
                    requires
                        0 <= a < i,
                        0 <= b < width,
                ;
                assert(r@[a * width + b] == before[a * width + b]);
            }
            j = j + 1;
        }
        assert((i + 1) * width == i * width + width) by (nonlinear_arith);
        i = i + 1;
    }
    r
}

/// The training data of one side of a split: the features row by row and
/// the labels of the single target column.
///
/// Fails with `NonContiguousData` unless the target has exactly one column,
/// both tables have the same rows, and the features fit in one buffer.
pub fn dense_training_data(features: &Table, target: &Table) -> (r: Result<
    (Vec<u64>, Vec<u64>),
    TrainingError,
>)
    ensures
        match r {
            Ok((dense, labels)) => {
                &&& labels@ == target@[0].1
                &&& dense@.len() == row_count_of(features@) * features@.len()
                &&& forall|i: int, j: int|
                    0 <= i < row_count_of(features@) && 0 <= j < features@.len() ==> #[trigger] dense@[i
                        * features@.len() + j] == features@[j].1[i]
            },
            Err(e) => e == TrainingError::NonContiguousData,
        },
        r is Ok <==> target@.len() == 1 && row_count_of(target@) == row_count_of(features@)
            && row_count_of(features@) * features@.len() <= usize::MAX,
{
    if target.column_count() != 1 || target.row_count() != features.row_count() {
        return Err(TrainingError::NonContiguousData);
    }
    let rows = features.row_count();
    let width = features.column_count();
    if width > 0 && rows > usize::MAX / width {
        assert(rows * width > usize::MAX) by (nonlinear_arith)
            requires
                width > 0,
                rows > usize::MAX / width,
        ;
        return Err(TrainingError::NonContiguousData);
    }
    assert(rows * width <= usize::MAX) by (nonlinear_arith)
        requires
            width == 0 || rows <= usize::MAX / width,
    ;
    let dense = row_major(features);
    let labels = target.column_values(0);
    Ok((dense, labels))
}

} // verus!
