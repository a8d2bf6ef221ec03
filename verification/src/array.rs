//! Columns, typed column builders, and column-aligned batches.

use vstd::prelude::*;
use crate::value::{DataType, DataValue};

verus! {

/// One column: a declared type together with one scalar per row.
#[derive(Debug, PartialEq, Eq)]
pub struct ArrayImpl {
    pub data_type: DataType,
    pub values: Vec<DataValue>,
}

impl ArrayImpl {
    /// Number of rows stored in the column.
    pub fn len(&self) -> (n: usize)
        ensures
            n == self.values@.len(),
    {
        self.values.len()
    }

    /// The scalar of one row.
    pub fn get(&self, row_idx: usize) -> (v: DataValue)
        requires
            row_idx < self.values@.len(),
        ensures
            v == self.values@[row_idx as int],
    {
        self.values[row_idx]
    }

    /// A copy of the column, row for row.
    pub fn duplicate(&self) -> (r: ArrayImpl)
        ensures
            r.data_type == self.data_type,
            r.values@ == self.values@,
    {
        let mut values: Vec<DataValue> = Vec::new();
        let mut i: usize = 0;
        while i < self.values.len()
            invariant
                i <= self.values@.len(),
                values@ == self.values@.subrange(0, i as int),
            decreases self.values@.len() - i,
        {
            values.push(self.values[i]);
            i = i + 1;
        }
        proof {
            assert(values@ == self.values@.subrange(0, self.values@.len() as int));
            assert(self.values@.subrange(0, self.values@.len() as int) =~= self.values@);
        }
        ArrayImpl { data_type: self.data_type, values }
    }
}

/// A typed builder: collects scalars one by one and finishes into a column.
pub struct ArrayBuilderImpl {
    pub data_type: DataType,
    pub values: Vec<DataValue>,
}

impl ArrayBuilderImpl {
    /// A fresh, empty builder for the given column type.
    pub fn new(data_type: &DataType) -> (b: ArrayBuilderImpl)
        ensures
            b.data_type == *data_type,
            b.values@ == Seq::<DataValue>::empty(),
    {
        ArrayBuilderImpl { data_type: *data_type, values: Vec::new() }
    }

    /// Append one scalar.
    pub fn push(&mut self, v: &DataValue)
        ensures
            final(self).data_type == old(self).data_type,
            final(self).values@ == old(self).values@.push(*v),
    {
        self.values.push(*v);
    }

    /// Finish into a column holding everything pushed so far, in order.
    pub fn finish(self) -> (a: ArrayImpl)
        ensures
            a.data_type == self.data_type,
            a.values@ == self.values@,
    {
        ArrayImpl { data_type: self.data_type, values: self.values }
    }
}

/// A batch: a set of columns, all of the same row count.
#[derive(Debug, PartialEq, Eq)]
pub struct DataChunk {
    pub arrays: Vec<ArrayImpl>,
}

impl DataChunk {
    /// Row count shared by every column (`0` for a batch with no columns).
    pub open spec fn spec_cardinality(self) -> nat {
        if self.arrays@.len() == 0 {
            0
        } else {
            self.arrays@[0].values@.len()
        }
    }

    /// Every column holds exactly `spec_cardinality` rows.
    pub open spec fn well_formed(self) -> bool {
        forall|i: int|
            0 <= i < self.arrays@.len() ==> (#[trigger] self.arrays@[i]).values@.len()
                == self.spec_cardinality()
    }

    /// Build a batch from columns of equal length.
    pub fn new(arrays: Vec<ArrayImpl>) -> (c: DataChunk)
        requires
            forall|i: int, j: int|
                0 <= i < arrays@.len() && 0 <= j < arrays@.len()
                    ==> (#[trigger] arrays@[i]).values@.len()
                        == (#[trigger] arrays@[j]).values@.len(),
        ensures
            c.arrays@ == arrays@,
            c.well_formed(),
    {
        DataChunk { arrays }
    }

    /// The shared row count.
    pub fn cardinality(&self) -> (n: usize)
        ensures
            n == self.spec_cardinality(),
    {
        if self.arrays.len() == 0 {
            0
        } else {
            self.arrays[0].len()
        }
    }
}

} // verus!
