use hash_agg::aggregation::{AggKind, BoundAggCall};
use hash_agg::array::{ArrayImpl, DataChunk};
use hash_agg::expr::BoundExpr;
use hash_agg::hash_agg::HashAggExecutor;
use hash_agg::value::{DataType, DataValue, ExecutorError};

fn int_col(values: Vec<i64>) -> ArrayImpl {
    ArrayImpl {
        data_type: DataType::Int64,
        values: values.into_iter().map(DataValue::Int64).collect(),
    }
}

fn raw_col(values: Vec<DataValue>) -> ArrayImpl {
    ArrayImpl { data_type: DataType::Int64, values }
}

fn chunk(arrays: Vec<ArrayImpl>) -> DataChunk {
    DataChunk { arrays }
}

fn col_ref(index: usize) -> BoundExpr {
    BoundExpr { index, return_type: DataType::Int64 }
}

fn agg(kind: AggKind, index: usize) -> BoundAggCall {
    BoundAggCall { kind, args: vec![col_ref(index)], return_type: DataType::Int64 }
}

/// The rows of a two-column result batch, as (key, value) pairs.
fn result_pairs(out: &DataChunk) -> Vec<(DataValue, DataValue)> {
    assert_eq!(out.arrays.len(), 2);
    let keys = &out.arrays[0].values;
    let vals = &out.arrays[1].values;
    assert_eq!(keys.len(), vals.len());
    keys.iter().cloned().zip(vals.iter().cloned()).collect()
}

#[test]
fn sum_grouped_across_two_batches() {
    // column k = group key, column v = aggregate argument;
    // rows (1,10),(2,20) in the first batch, (1,30) in the second.
    let exec = HashAggExecutor {
        agg_calls: vec![agg(AggKind::Sum, 1)],
        group_keys: vec![col_ref(0)],
        child: vec![
            Ok(chunk(vec![int_col(vec![1, 2]), int_col(vec![10, 20])])),
            Ok(chunk(vec![int_col(vec![1]), int_col(vec![30])])),
        ],
    };
    let out = exec.execute().unwrap();
    let pairs = result_pairs(&out);
    assert_eq!(pairs.len(), 2);
    assert!(pairs.contains(&(DataValue::Int64(1), DataValue::Int64(40))));
    assert!(pairs.contains(&(DataValue::Int64(2), DataValue::Int64(20))));
}

#[test]
fn batch_splitting_gives_identical_result() {
    let make = |batches: Vec<Vec<(i64, i64)>>| {
        let child = batches
            .into_iter()
            .map(|rows| {
                let (ks, vs): (Vec<i64>, Vec<i64>) = rows.into_iter().unzip();
                Ok(chunk(vec![int_col(ks), int_col(vs)]))
            })
            .collect();
        HashAggExecutor {
            agg_calls: vec![agg(AggKind::Sum, 1)],
            group_keys: vec![col_ref(0)],
            child,
        }
    };
    let one = make(vec![vec![(1, 10), (2, 20), (1, 30)]]).execute().unwrap();
    let split = make(vec![vec![(1, 10)], vec![(2, 20)], vec![(1, 30)]]).execute().unwrap();
    assert_eq!(result_pairs(&one), result_pairs(&split));
}

#[test]
fn batch_order_gives_identical_result_set() {
    let make = |batches: Vec<Vec<(i64, i64)>>| {
        let child = batches
            .into_iter()
            .map(|rows| {
                let (ks, vs): (Vec<i64>, Vec<i64>) = rows.into_iter().unzip();
                Ok(chunk(vec![int_col(ks), int_col(vs)]))
            })
            .collect();
        HashAggExecutor {
            agg_calls: vec![agg(AggKind::Sum, 1), agg(AggKind::Min, 1)],
            group_keys: vec![col_ref(0)],
            child,
        }
    };
    let fwd = make(vec![vec![(1, 10), (2, 20)], vec![(1, 30)]]).execute().unwrap();
    let rev = make(vec![vec![(1, 30)], vec![(2, 20), (1, 10)]]).execute().unwrap();
    let rows = |out: &DataChunk| {
        let mut v: Vec<(DataValue, DataValue, DataValue)> = (0..out.cardinality())
            .map(|i| {
                (
                    out.arrays[0].values[i],
                    out.arrays[1].values[i],
                    out.arrays[2].values[i],
                )
            })
            .collect();
        v.sort_by(|a, b| format!("{a:?}").cmp(&format!("{b:?}")));
        v
    };
    assert_eq!(rows(&fwd), rows(&rev));
}

#[test]
fn empty_input_yields_zero_rows() {
    // count over all rows of an empty input: zero result rows.
    let exec = HashAggExecutor {
        agg_calls: vec![agg(AggKind::RowCount, 0)],
        group_keys: vec![col_ref(0)],
        child: vec![],
    };
    let out = exec.execute().unwrap();
    assert_eq!(out.arrays.len(), 2);
    assert_eq!(out.cardinality(), 0);
}

#[test]
fn zero_row_batches_yield_zero_rows() {
    let exec = HashAggExecutor {
        agg_calls: vec![agg(AggKind::RowCount, 0)],
        group_keys: vec![col_ref(0)],
        child: vec![Ok(chunk(vec![int_col(vec![]), int_col(vec![])]))],
    };
    let out = exec.execute().unwrap();
    assert_eq!(out.cardinality(), 0);
}

#[test]
fn row_count_conservation() {
    // four rows, three distinct keys: exactly three result rows.
    let exec = HashAggExecutor {
        agg_calls: vec![agg(AggKind::Count, 1)],
        group_keys: vec![col_ref(0)],
        child: vec![Ok(chunk(vec![int_col(vec![7, 8, 7, 9]), int_col(vec![1, 2, 3, 4])]))],
    };
    let out = exec.execute().unwrap();
    assert_eq!(out.cardinality(), 3);
}

#[test]
fn all_null_keys_form_one_group() {
    let nulls = vec![DataValue::Null, DataValue::Null, DataValue::Null];
    let exec = HashAggExecutor {
        agg_calls: vec![agg(AggKind::Sum, 1)],
        group_keys: vec![col_ref(0)],
        child: vec![Ok(chunk(vec![raw_col(nulls), int_col(vec![5, 6, 7])]))],
    };
    let out = exec.execute().unwrap();
    let pairs = result_pairs(&out);
    assert_eq!(pairs, vec![(DataValue::Null, DataValue::Int64(18))]);
}

#[test]
fn group_by_free_count_counts_all_rows() {
    // no group-by expressions: every row has the empty key tuple, one group.
    let exec = HashAggExecutor {
        agg_calls: vec![agg(AggKind::RowCount, 0)],
        group_keys: vec![],
        child: vec![
            Ok(chunk(vec![raw_col(vec![
                DataValue::Int64(1),
                DataValue::Null,
                DataValue::Int64(3),
            ])])),
            Ok(chunk(vec![raw_col(vec![DataValue::Null, DataValue::Int64(5)])])),
        ],
    };
    let out = exec.execute().unwrap();
    assert_eq!(out.arrays.len(), 1);
    assert_eq!(out.cardinality(), 1);
    assert_eq!(out.arrays[0].values, vec![DataValue::Int64(5)]);
}

#[test]
fn sum_excludes_nulls_and_all_null_group_is_null() {
    let exec = HashAggExecutor {
        agg_calls: vec![agg(AggKind::Sum, 1)],
        group_keys: vec![col_ref(0)],
        child: vec![Ok(chunk(vec![
            int_col(vec![1, 1, 1, 2]),
            raw_col(vec![
                DataValue::Int64(10),
                DataValue::Null,
                DataValue::Int64(32),
                DataValue::Null,
            ]),
        ]))],
    };
    let out = exec.execute().unwrap();
    let pairs = result_pairs(&out);
    assert_eq!(pairs.len(), 2);
    assert!(pairs.contains(&(DataValue::Int64(1), DataValue::Int64(42))));
    assert!(pairs.contains(&(DataValue::Int64(2), DataValue::Null)));
}

#[test]
fn min_and_max_over_groups() {
    let exec = HashAggExecutor {
        agg_calls: vec![agg(AggKind::Min, 1), agg(AggKind::Max, 1)],
        group_keys: vec![col_ref(0)],
        child: vec![Ok(chunk(vec![
            int_col(vec![1, 1, 1]),
            raw_col(vec![DataValue::Int64(4), DataValue::Null, DataValue::Int64(-2)]),
        ]))],
    };
    let out = exec.execute().unwrap();
    assert_eq!(out.arrays.len(), 3);
    assert_eq!(out.arrays[1].values, vec![DataValue::Int64(-2)]);
    assert_eq!(out.arrays[2].values, vec![DataValue::Int64(4)]);
}

#[test]
fn multi_column_group_key() {
    let exec = HashAggExecutor {
        agg_calls: vec![agg(AggKind::Count, 2)],
        group_keys: vec![col_ref(0), col_ref(1)],
        child: vec![Ok(chunk(vec![
            int_col(vec![1, 1, 2]),
            int_col(vec![5, 5, 5]),
            int_col(vec![0, 0, 0]),
        ]))],
    };
    let out = exec.execute().unwrap();
    assert_eq!(out.arrays.len(), 3);
    assert_eq!(out.cardinality(), 2);
}

#[test]
fn evaluation_failure_yields_no_output() {
    // the aggregate argument references a column the batch does not have.
    let exec = HashAggExecutor {
        agg_calls: vec![agg(AggKind::Sum, 9)],
        group_keys: vec![col_ref(0)],
        child: vec![Ok(chunk(vec![int_col(vec![1, 2])]))],
    };
    assert_eq!(exec.execute(), Err(ExecutorError::ColumnOutOfRange));
}

#[test]
fn upstream_failure_is_propagated() {
    let exec = HashAggExecutor {
        agg_calls: vec![agg(AggKind::Sum, 1)],
        group_keys: vec![col_ref(0)],
        child: vec![
            Ok(chunk(vec![int_col(vec![1]), int_col(vec![10])])),
            Err(ExecutorError::Upstream),
        ],
    };
    assert_eq!(exec.execute(), Err(ExecutorError::Upstream));
}

#[test]
fn type_mismatch_aborts() {
    // a boolean fed to a sum aggregate.
    let exec = HashAggExecutor {
        agg_calls: vec![agg(AggKind::Sum, 1)],
        group_keys: vec![col_ref(0)],
        child: vec![Ok(chunk(vec![
            int_col(vec![1]),
            raw_col(vec![DataValue::Bool(true)]),
        ]))],
    };
    assert_eq!(exec.execute(), Err(ExecutorError::TypeMismatch));
}

#[test]
fn sum_overflow_aborts() {
    let exec = HashAggExecutor {
        agg_calls: vec![agg(AggKind::Sum, 1)],
        group_keys: vec![col_ref(0)],
        child: vec![Ok(chunk(vec![
            int_col(vec![1, 1]),
            int_col(vec![i64::MAX, 1]),
        ]))],
    };
    assert_eq!(exec.execute(), Err(ExecutorError::Overflow));
}

#[test]
fn key_columns_carry_the_group_values() {
    // distinct keys survive the round trip through the group-key vector.
    let exec = HashAggExecutor {
        agg_calls: vec![agg(AggKind::RowCount, 0)],
        group_keys: vec![col_ref(0)],
        child: vec![Ok(chunk(vec![int_col(vec![42, -7, 42])]))],
    };
    let out = exec.execute().unwrap();
    let pairs = result_pairs(&out);
    assert_eq!(pairs.len(), 2);
    assert!(pairs.contains(&(DataValue::Int64(42), DataValue::Int64(2))));
    assert!(pairs.contains(&(DataValue::Int64(-7), DataValue::Int64(1))));
}
