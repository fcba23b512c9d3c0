//! Model lifecycle and serving core of a tabular house-price regressor.
//!
//! The offline pipeline splits a table of observations into train and test
//! rows, projects it onto the fixed feature columns and the target column,
//! and frames the fitted model into an artifact that records its feature
//! order. The online pipeline checks such an artifact before installing it
//! into a shared model handle, and validates prediction requests against the
//! same feature order.
//!
//! Numeric cells travel through the library as the bit patterns of 64-bit
//! IEEE-754 floats (`u64`): the library moves, projects and checks them, and
//! never does arithmetic on them.

pub mod artifact;
pub mod error;
pub mod features;
pub mod handle;
pub mod request;
pub mod service;
pub mod split;
pub mod table;
pub mod training;
