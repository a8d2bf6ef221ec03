//! Bound expressions, evaluated column-wise against a batch.
//!
//! The surrounding engine's binder produces arbitrary expressions; this
//! operator only ever asks "evaluate over the batch, give me one column", so
//! the stand-in here is the column-reference expression, the one shape the
//! aggregation logic itself depends on.

use vstd::prelude::*;
use crate::array::{ArrayImpl, DataChunk};
use crate::value::{DataType, DataValue, ExecutorError};

verus! {

/// A bound expression: reads one column of the input batch.
pub struct BoundExpr {
    /// Index of the referenced column in the input batch.
    pub index: usize,
    /// Declared result type, fixed by the binder.
    pub return_type: DataType,
}

impl BoundExpr {
    /// Evaluation succeeds exactly when the referenced column exists.
    pub open spec fn eval_ok(self, chunk: DataChunk) -> bool {
        self.index < chunk.arrays@.len()
    }

    /// The rows of the column this expression evaluates to.
    pub open spec fn eval_values(self, chunk: DataChunk) -> Seq<DataValue> {
        chunk.arrays@[self.index as int].values@
    }

    /// Evaluate against a batch, producing one column or an evaluation error.
    pub fn eval_array(&self, chunk: &DataChunk) -> (r: Result<ArrayImpl, ExecutorError>)
        ensures
            self.eval_ok(*chunk) ==> (r matches Ok(a) && a.values@ == self.eval_values(*chunk)
                && a.data_type == chunk.arrays@[self.index as int].data_type),
            !self.eval_ok(*chunk) ==> r == Err::<ArrayImpl, ExecutorError>(
                ExecutorError::ColumnOutOfRange,
            ),
    {
        if self.index < chunk.arrays.len() {
            Ok(chunk.arrays[self.index].duplicate())
        } else {
            Err(ExecutorError::ColumnOutOfRange)
        }
    }
}

} // verus!
