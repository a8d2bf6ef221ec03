//! Scalar values, column types, and the executor's error type.

use vstd::prelude::*;

verus! {

/// A typed scalar value flowing through the pipeline.
///
/// `Null` is the missing-value sentinel. It compares equal to itself, so
/// rows whose group-by values are all `Null` fall into a single group.
#[derive(Clone, Copy, PartialEq, Eq, Structural, Debug)]
pub enum DataValue {
    /// The missing/null scalar.
    Null,
    /// A 64-bit signed integer.
    Int64(i64),
    /// A boolean.
    Bool(bool),
}

/// The declared type of a column or of an expression's result.
#[derive(Clone, Copy, PartialEq, Eq, Structural, Debug)]
pub enum DataType {
    Int64,
    Bool,
}

/// Everything that can abort the operator.
///
/// Every error is fatal: the operator yields no output batch once any of
/// these occurs.
#[derive(Clone, Copy, PartialEq, Eq, Structural, Debug)]
pub enum ExecutorError {
    /// An expression referenced a column the batch does not have.
    ColumnOutOfRange,
    /// An aggregation state was fed a scalar of an incompatible runtime type.
    TypeMismatch,
    /// An aggregation state's accumulator left the representable range.
    Overflow,
    /// The upstream source failed for a reason of its own.
    Upstream,
}

} // verus!
