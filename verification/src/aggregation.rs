//! Per-group aggregation states and their update/output contract.
//!
//! One state instance exists per (group, aggregate call). Every state starts
//! at its function's identity, consumes one scalar per `update_single`, and
//! yields its current result through `output` at any time.
//!
//! Null handling, per function: `RowCount` (count over all rows) counts every
//! row, nulls included; `Count` counts only non-null values; `Sum`, `Min` and
//! `Max` ignore nulls and yield `Null` for a group whose values were all null
//! (or that saw no value at all).

use vstd::prelude::*;
use crate::expr::BoundExpr;
use crate::value::{DataType, DataValue, ExecutorError};

verus! {

/// Which aggregate function a call requests.
#[derive(Clone, Copy, PartialEq, Eq, Structural, Debug)]
pub enum AggKind {
    /// Count of rows, nulls included.
    RowCount,
    /// Count of non-null argument values.
    Count,
    /// Arithmetic sum of non-null argument values.
    Sum,
    /// Least non-null argument value.
    Min,
    /// Greatest non-null argument value.
    Max,
}

/// One aggregate call, as the binder hands it over: a function kind, exactly
/// one argument expression, and the declared result type.
pub struct BoundAggCall {
    pub kind: AggKind,
    /// Argument expressions; this operator supports exactly one.
    pub args: Vec<BoundExpr>,
    pub return_type: DataType,
}

/// The running accumulator of one aggregate call within one group.
#[derive(Clone, Copy, Debug)]
pub enum AggregationState {
    RowCount { rows: i64 },
    Count { non_null: i64 },
    Sum { acc: Option<i64> },
    Min { acc: Option<i64> },
    Max { acc: Option<i64> },
}

/// The identity state a fresh accumulator starts from.
pub open spec fn agg_init(kind: AggKind) -> AggregationState {
    match kind {
        AggKind::RowCount => AggregationState::RowCount { rows: 0 },
        AggKind::Count => AggregationState::Count { non_null: 0 },
        AggKind::Sum => AggregationState::Sum { acc: None },
        AggKind::Min => AggregationState::Min { acc: None },
        AggKind::Max => AggregationState::Max { acc: None },
    }
}

/// What feeding one scalar to a state yields: the successor state, or the
/// error that aborts the operator.
pub open spec fn agg_step(s: AggregationState, v: DataValue) -> Result<
    AggregationState,
    ExecutorError,
> {
    match s {
        AggregationState::RowCount { rows } => if rows < i64::MAX {
            Ok(AggregationState::RowCount { rows: (rows + 1) as i64 })
        } else {
            Err(ExecutorError::Overflow)
        },
        AggregationState::Count { non_null } => match v {
            DataValue::Null => Ok(s),
            _ => if non_null < i64::MAX {
                Ok(AggregationState::Count { non_null: (non_null + 1) as i64 })
            } else {
                Err(ExecutorError::Overflow)
            },
        },
        AggregationState::Sum { acc } => match v {
            DataValue::Null => Ok(s),
            DataValue::Int64(x) => {
                let base = match acc {
                    Some(b) => b as int,
                    None => 0int,
                };
                if i64::MIN <= base + x <= i64::MAX {
                    Ok(AggregationState::Sum { acc: Some((base + x) as i64) })
                } else {
                    Err(ExecutorError::Overflow)
                }
            },
            DataValue::Bool(_) => Err(ExecutorError::TypeMismatch),
        },
        AggregationState::Min { acc } => match v {
            DataValue::Null => Ok(s),
            DataValue::Int64(x) => {
                let m = match acc {
                    Some(b) => if x < b {
                        x
                    } else {
                        b
                    },
                    None => x,
                };
                Ok(AggregationState::Min { acc: Some(m) })
            },
            DataValue::Bool(_) => Err(ExecutorError::TypeMismatch),
        },
        AggregationState::Max { acc } => match v {
            DataValue::Null => Ok(s),
            DataValue::Int64(x) => {
                let m = match acc {
                    Some(b) => if x > b {
                        x
                    } else {
                        b
                    },
                    None => x,
                };
                Ok(AggregationState::Max { acc: Some(m) })
            },
            DataValue::Bool(_) => Err(ExecutorError::TypeMismatch),
        },
    }
}

/// The result a state reports, in its final form.
pub open spec fn agg_output(s: AggregationState) -> DataValue {
    match s {
        AggregationState::RowCount { rows } => DataValue::Int64(rows),
        AggregationState::Count { non_null } => DataValue::Int64(non_null),
        AggregationState::Sum { acc } => match acc {
            Some(x) => DataValue::Int64(x),
            None => DataValue::Null,
        },
        AggregationState::Min { acc } => match acc {
            Some(x) => DataValue::Int64(x),
            None => DataValue::Null,
        },
        AggregationState::Max { acc } => match acc {
            Some(x) => DataValue::Int64(x),
            None => DataValue::Null,
        },
    }
}

/// Feeding a whole sequence of scalars to a state, first element first;
/// stops at the first failing step.
pub open spec fn run_updates(s: AggregationState, vs: Seq<DataValue>) -> Result<
    AggregationState,
    ExecutorError,
>
    decreases vs.len(),
{
    if vs.len() == 0 {
        Ok(s)
    } else {
        match agg_step(s, vs[0]) {
            Ok(s2) => run_updates(s2, vs.drop_first()),
            Err(e) => Err(e),
        }
    }
}

impl AggregationState {
    /// The fresh accumulator for one aggregate function.
    pub fn new(kind: AggKind) -> (s: AggregationState)
        ensures
            s == agg_init(kind),
    {
        match kind {
            AggKind::RowCount => AggregationState::RowCount { rows: 0 },
            AggKind::Count => AggregationState::Count { non_null: 0 },
            AggKind::Sum => AggregationState::Sum { acc: None },
            AggKind::Min => AggregationState::Min { acc: None },
            AggKind::Max => AggregationState::Max { acc: None },
        }
    }

    /// Incorporate one scalar; on failure the state is left unchanged.
    pub fn update_single(&mut self, value: &DataValue) -> (r: Result<(), ExecutorError>)
        ensures
            match agg_step(*old(self), *value) {
                Ok(s2) => r == Ok::<(), ExecutorError>(()) && *final(self) == s2,
                Err(e) => r == Err::<(), ExecutorError>(e) && *final(self) == *old(self),
            },
    {
        match *self {
            AggregationState::RowCount { rows } => {
                if rows < i64::MAX {
                    *self = AggregationState::RowCount { rows: rows + 1 };
                    Ok(())
                } else {
                    Err(ExecutorError::Overflow)
                }
            },
            AggregationState::Count { non_null } => match *value {
                DataValue::Null => Ok(()),
                _ => {
                    if non_null < i64::MAX {
                        *self = AggregationState::Count { non_null: non_null + 1 };
                        Ok(())
                    } else {
                        Err(ExecutorError::Overflow)
                    }
                },
            },
            AggregationState::Sum { acc } => match *value {
                DataValue::Null => Ok(()),
                DataValue::Int64(x) => {
                    let base: i64 = match acc {
                        Some(b) => b,
                        None => 0,
                    };
                    match base.checked_add(x) {
                        Some(t) => {
                            *self = AggregationState::Sum { acc: Some(t) };
                            Ok(())
                        },
                        None => Err(ExecutorError::Overflow),
                    }
                },
                DataValue::Bool(_) => Err(ExecutorError::TypeMismatch),
            },
            AggregationState::Min { acc } => match *value {
                DataValue::Null => Ok(()),
                DataValue::Int64(x) => {
                    let m: i64 = match acc {
                        Some(b) => if x < b {
                            x
                        } else {
                            b
                        },
                        None => x,
                    };
                    *self = AggregationState::Min { acc: Some(m) };
                    Ok(())
                },
                DataValue::Bool(_) => Err(ExecutorError::TypeMismatch),
            },
            AggregationState::Max { acc } => match *value {
                DataValue::Null => Ok(()),
                DataValue::Int64(x) => {
                    let m: i64 = match acc {
                        Some(b) => if x > b {
                            x
                        } else {
                            b
                        },
                        None => x,
                    };
                    *self = AggregationState::Max { acc: Some(m) };
                    Ok(())
                },
                DataValue::Bool(_) => Err(ExecutorError::TypeMismatch),
            },
        }
    }

    /// The accumulated result. The receiver is shared, so repeated calls
    /// without an intervening `update_single` return the same value.
    pub fn output(&self) -> (r: DataValue)
        ensures
            r == agg_output(*self),
    {
        match *self {
            AggregationState::RowCount { rows } => DataValue::Int64(rows),
            AggregationState::Count { non_null } => DataValue::Int64(non_null),
            AggregationState::Sum { acc } => match acc {
                Some(x) => DataValue::Int64(x),
                None => DataValue::Null,
            },
            AggregationState::Min { acc } => match acc {
                Some(x) => DataValue::Int64(x),
                None => DataValue::Null,
            },
            AggregationState::Max { acc } => match acc {
                Some(x) => DataValue::Int64(x),
                None => DataValue::Null,
            },
        }
    }
}

/// The identity states of a whole aggregate-call list, in call order.
pub open spec fn init_states(agg_calls: Seq<BoundAggCall>) -> Seq<AggregationState> {
    agg_calls.map_values(|c: BoundAggCall| agg_init(c.kind))
}

/// One freshly-initialized state per aggregate call, in call order.
pub fn create_agg_states(agg_calls: &Vec<BoundAggCall>) -> (states: Vec<AggregationState>)
    ensures
        states@ == init_states(agg_calls@),
{
    let mut states: Vec<AggregationState> = Vec::new();
    let mut i: usize = 0;
    while i < agg_calls.len()
        invariant
            i <= agg_calls@.len(),
            states@.len() == i,
            forall|j: int| 0 <= j < i ==> states@[j] == agg_init(agg_calls@[j].kind),
        decreases agg_calls@.len() - i,
    {
        states.push(AggregationState::new(agg_calls[i].kind));
        i = i + 1;
    }
    proof {
        assert(states@ =~= init_states(agg_calls@));
    }
    states
}

} // verus!
