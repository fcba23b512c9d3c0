use vstd::prelude::*;

verus! {

/// Failures of the data side: a malformed table, a missing column, too few rows.
#[derive(Debug, PartialEq, Eq)]
pub enum DataError {
    /// A split needs at least two rows.
    InsufficientData,
    /// A required column is absent; the payload is its name.
    MissingColumn(String),
    /// A column name occurs twice; the payload is that name.
    DuplicateColumn(String),
    /// The columns of a table do not all have the same number of values.
    RaggedColumns,
    /// Two tables that are joined side by side differ in their row counts.
    RowCountMismatch,
    /// A test fraction must lie strictly between zero and one.
    InvalidTestFraction,
}

} // verus!
