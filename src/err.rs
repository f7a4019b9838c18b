//! Errors of column type inference.
use vstd::prelude::*;

verus! {

/// Why inference over a sample of rows failed.
#[derive(Debug, PartialEq, Eq)]
pub enum TypeGenErrors {
    /// A sampled row (counted from 1) has another number of fields than
    /// there are columns.
    RowShapeMismatch { line: usize, expected: usize, actual: usize },
    /// A string column holds more distinct values than the configured cap.
    CardinalityExceeded { column_name: String },
}

} // verus!
