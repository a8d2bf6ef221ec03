use hash_agg::aggregation::{AggKind, AggregationState, BoundAggCall};
use hash_agg::aggregation::create_agg_states;
use hash_agg::expr::BoundExpr;
use hash_agg::value::{DataType, DataValue, ExecutorError};

#[test]
fn output_before_any_update_is_the_identity() {
    assert_eq!(AggregationState::new(AggKind::RowCount).output(), DataValue::Int64(0));
    assert_eq!(AggregationState::new(AggKind::Count).output(), DataValue::Int64(0));
    assert_eq!(AggregationState::new(AggKind::Sum).output(), DataValue::Null);
    assert_eq!(AggregationState::new(AggKind::Min).output(), DataValue::Null);
    assert_eq!(AggregationState::new(AggKind::Max).output(), DataValue::Null);
}

#[test]
fn output_is_idempotent() {
    let mut s = AggregationState::new(AggKind::Sum);
    s.update_single(&DataValue::Int64(11)).unwrap();
    s.update_single(&DataValue::Int64(31)).unwrap();
    let first = s.output();
    let second = s.output();
    let third = s.output();
    assert_eq!(first, DataValue::Int64(42));
    assert_eq!(second, first);
    assert_eq!(third, first);
}

#[test]
fn count_ignores_nulls_row_count_does_not() {
    let mut count = AggregationState::new(AggKind::Count);
    let mut rows = AggregationState::new(AggKind::RowCount);
    for v in [DataValue::Int64(1), DataValue::Null, DataValue::Int64(3)] {
        count.update_single(&v).unwrap();
        rows.update_single(&v).unwrap();
    }
    assert_eq!(count.output(), DataValue::Int64(2));
    assert_eq!(rows.output(), DataValue::Int64(3));
}

#[test]
fn min_max_track_extremes_and_ignore_nulls() {
    let mut min = AggregationState::new(AggKind::Min);
    let mut max = AggregationState::new(AggKind::Max);
    for v in [DataValue::Int64(3), DataValue::Null, DataValue::Int64(-5), DataValue::Int64(4)] {
        min.update_single(&v).unwrap();
        max.update_single(&v).unwrap();
    }
    assert_eq!(min.output(), DataValue::Int64(-5));
    assert_eq!(max.output(), DataValue::Int64(4));
}

#[test]
fn failed_update_leaves_state_unchanged() {
    let mut s = AggregationState::new(AggKind::Sum);
    s.update_single(&DataValue::Int64(7)).unwrap();
    assert_eq!(s.update_single(&DataValue::Bool(false)), Err(ExecutorError::TypeMismatch));
    assert_eq!(s.output(), DataValue::Int64(7));
}

#[test]
fn sum_overflow_is_reported() {
    let mut s = AggregationState::new(AggKind::Sum);
    s.update_single(&DataValue::Int64(i64::MAX)).unwrap();
    assert_eq!(s.update_single(&DataValue::Int64(1)), Err(ExecutorError::Overflow));
    s.update_single(&DataValue::Int64(-1)).unwrap();
    assert_eq!(s.output(), DataValue::Int64(i64::MAX - 1));
}

#[test]
fn fresh_states_come_in_call_order() {
    let calls = vec![
        BoundAggCall {
            kind: AggKind::Count,
            args: vec![BoundExpr { index: 0, return_type: DataType::Int64 }],
            return_type: DataType::Int64,
        },
        BoundAggCall {
            kind: AggKind::Sum,
            args: vec![BoundExpr { index: 1, return_type: DataType::Int64 }],
            return_type: DataType::Int64,
        },
    ];
    let states = create_agg_states(&calls);
    assert_eq!(states.len(), 2);
    assert!(matches!(states[0], AggregationState::Count { .. }));
    assert!(matches!(states[1], AggregationState::Sum { .. }));
}
