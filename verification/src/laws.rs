//! Laws of the operator, proved over the model in `model` and the
//! aggregation-state semantics in `aggregation`.

use vstd::prelude::*;
use crate::aggregation::{
    agg_init, agg_output, agg_step, run_updates, AggKind, AggregationState, BoundAggCall,
};
use crate::expr::BoundExpr;
use crate::array::DataChunk;
use crate::model::{
    chunk_rows, evals_ok, extend_keys, flat_rows, keys_in_order, lemma_run_rows_append, ok_chunks,
    process_chunks, run_rows, GroupMap, RowModel,
};
use crate::store::update_states;
use vstd::multiset::Multiset;
use crate::value::{DataValue, ExecutorError};

verus! {

/// The key tuple of each row, in row order.
pub open spec fn row_keys(rows: Seq<RowModel>) -> Seq<Seq<DataValue>> {
    rows.map_values(|r: RowModel| r.0)
}

/// First-seen key order lists exactly the distinct keys of the input, each
/// once, continuing from a duplicate-free prefix.
proof fn lemma_extend_keys_props(ks: Seq<Seq<DataValue>>, rows: Seq<RowModel>)
    requires
        ks.no_duplicates(),
    ensures
        extend_keys(ks, rows).no_duplicates(),
        extend_keys(ks, rows).to_set() == ks.to_set().union(row_keys(rows).to_set()),
    decreases rows.len(),
{
    if rows.len() == 0 {
        assert(row_keys(rows).to_set() =~= Set::<Seq<DataValue>>::empty());
        assert(extend_keys(ks, rows).to_set() =~= ks.to_set().union(row_keys(rows).to_set()));
    } else {
        lemma_extend_keys_props(ks, rows.drop_last());
        let prev = extend_keys(ks, rows.drop_last());
        let k = rows.last().0;
        assert(row_keys(rows).drop_last() =~= row_keys(rows.drop_last()));
        assert(row_keys(rows).last() == k);
        Seq::lemma_push_to_set_commute(row_keys(rows).drop_last(), k);
        assert(row_keys(rows).drop_last().push(k) =~= row_keys(rows));
        assert(row_keys(rows).to_set() == row_keys(rows.drop_last()).to_set().insert(k));
        if prev.contains(k) {
            assert(prev.to_set().contains(k));
            assert(extend_keys(ks, rows).to_set() =~= ks.to_set().union(
                row_keys(rows).to_set(),
            ));
        } else {
            assert forall|i: int, j: int|
                0 <= i < j < prev.push(k).len() implies prev.push(k)[i] != prev.push(k)[j] by {
                if j < prev.len() {
                } else {
                    assert(prev.push(k)[i] == prev[i]);
                    if prev[i] == k {
                        assert(prev.contains(k));
                    }
                }
            }
            Seq::lemma_push_to_set_commute(prev, k);
            assert(extend_keys(ks, rows).to_set() =~= ks.to_set().union(
                row_keys(rows).to_set(),
            ));
        }
    }
}

/// Row-count conservation: the output has one row per distinct group key of
/// the input — `keys_in_order` (whose length the executor's contract gives
/// as the output row count) has no duplicate and enumerates exactly the set
/// of key tuples present in the input; no input rows means no output rows.
pub proof fn lemma_row_count_conservation(rows: Seq<RowModel>)
    ensures
        keys_in_order(rows).no_duplicates(),
        keys_in_order(rows).to_set() == row_keys(rows).to_set(),
        keys_in_order(rows).len() == row_keys(rows).to_set().len(),
        rows.len() == 0 ==> keys_in_order(rows).len() == 0,
{
    lemma_extend_keys_props(Seq::<Seq<DataValue>>::empty(), rows);
    assert(Seq::<Seq<DataValue>>::empty().to_set() =~= Set::<Seq<DataValue>>::empty());
    assert(keys_in_order(rows).to_set() =~= row_keys(rows).to_set());
    keys_in_order(rows).unique_seq_to_set();
}

/// Null-group consistency: two rows whose group-by tuples have the same
/// width and hold only the missing scalar carry the same key tuple, so they
/// fall into one group, not one group per row.
pub proof fn lemma_null_group_consistency(k1: Seq<DataValue>, k2: Seq<DataValue>)
    requires
        k1.len() == k2.len(),
        forall|t: int| 0 <= t < k1.len() ==> k1[t] == DataValue::Null,
        forall|t: int| 0 <= t < k2.len() ==> k2[t] == DataValue::Null,
    ensures
        k1 == k2,
{
    assert(k1 =~= k2);
}

/// The row count a `RowCount` state reaches after a successful run.
proof fn lemma_row_count_run(c: i64, vs: Seq<DataValue>)
    requires
        run_updates(AggregationState::RowCount { rows: c }, vs) is Ok,
    ensures
        c + vs.len() <= i64::MAX,
        run_updates(AggregationState::RowCount { rows: c }, vs) == Ok::<
            AggregationState,
            ExecutorError,
        >(AggregationState::RowCount { rows: (c + vs.len()) as i64 }),
    decreases vs.len(),
{
    if vs.len() == 0 {
    } else {
        lemma_row_count_run((c + 1) as i64, vs.drop_first());
    }
}

/// Count-over-all-rows correctness: a `RowCount` aggregate that consumed `N`
/// scalars, nulls included, reports exactly `N`.
pub proof fn lemma_count_star_correct(vs: Seq<DataValue>)
    requires
        run_updates(agg_init(AggKind::RowCount), vs) is Ok,
    ensures
        vs.len() <= i64::MAX,
        agg_output(run_updates(agg_init(AggKind::RowCount), vs)->Ok_0) == DataValue::Int64(
            vs.len() as i64,
        ),
{
    lemma_row_count_run(0, vs);
}

/// How many of the scalars are not the missing sentinel.
pub open spec fn count_non_null(vs: Seq<DataValue>) -> int
    decreases vs.len(),
{
    if vs.len() == 0 {
        0
    } else {
        (if vs[0] == DataValue::Null {
            0int
        } else {
            1int
        }) + count_non_null(vs.drop_first())
    }
}

/// The arithmetic sum of the non-null integer scalars; missing scalars
/// contribute nothing.
pub open spec fn sum_of_values(vs: Seq<DataValue>) -> int
    decreases vs.len(),
{
    if vs.len() == 0 {
        0
    } else {
        (match vs[0] {
            DataValue::Int64(x) => x as int,
            _ => 0int,
        }) + sum_of_values(vs.drop_first())
    }
}

/// The non-null count of any scalar sequence is nonnegative.
proof fn lemma_count_non_null_nonneg(vs: Seq<DataValue>)
    ensures
        0 <= count_non_null(vs),
    decreases vs.len(),
{
    if vs.len() == 0 {
    } else {
        lemma_count_non_null_nonneg(vs.drop_first());
    }
}

/// The count a `Count` state reaches after a successful run.
proof fn lemma_count_run(c: i64, vs: Seq<DataValue>)
    requires
        run_updates(AggregationState::Count { non_null: c }, vs) is Ok,
    ensures
        c + count_non_null(vs) <= i64::MAX,
        0 <= count_non_null(vs),
        run_updates(AggregationState::Count { non_null: c }, vs) == Ok::<
            AggregationState,
            ExecutorError,
        >(AggregationState::Count { non_null: (c + count_non_null(vs)) as i64 }),
    decreases vs.len(),
{
    if vs.len() == 0 {
    } else {
        match agg_step(AggregationState::Count { non_null: c }, vs[0]) {
            Ok(s2) => {
                if vs[0] == DataValue::Null {
                    lemma_count_run(c, vs.drop_first());
                } else {
                    lemma_count_run((c + 1) as i64, vs.drop_first());
                }
            },
            Err(e) => {},
        }
    }
}

/// Count correctness: a `Count` aggregate reports exactly how many of its
/// scalars were non-null.
pub proof fn lemma_count_correct(vs: Seq<DataValue>)
    requires
        run_updates(agg_init(AggKind::Count), vs) is Ok,
    ensures
        count_non_null(vs) <= i64::MAX,
        agg_output(run_updates(agg_init(AggKind::Count), vs)->Ok_0) == DataValue::Int64(
            count_non_null(vs) as i64,
        ),
{
    lemma_count_run(0, vs);
}

/// The accumulator a `Sum` state reaches after a successful run.
proof fn lemma_sum_run(acc: Option<i64>, vs: Seq<DataValue>)
    requires
        run_updates(AggregationState::Sum { acc }, vs) is Ok,
    ensures
        acc matches Some(b) ==> i64::MIN <= b + sum_of_values(vs) <= i64::MAX && run_updates(
            AggregationState::Sum { acc },
            vs,
        ) == Ok::<AggregationState, ExecutorError>(
            AggregationState::Sum { acc: Some((b + sum_of_values(vs)) as i64) },
        ),
        acc is None && count_non_null(vs) == 0 ==> run_updates(AggregationState::Sum { acc }, vs)
            == Ok::<AggregationState, ExecutorError>(AggregationState::Sum { acc: None })
            && sum_of_values(vs) == 0,
        acc is None && count_non_null(vs) != 0 ==> i64::MIN <= sum_of_values(vs) <= i64::MAX
            && run_updates(AggregationState::Sum { acc }, vs) == Ok::<
            AggregationState,
            ExecutorError,
        >(AggregationState::Sum { acc: Some(sum_of_values(vs) as i64) }),
    decreases vs.len(),
{
    if vs.len() == 0 {
    } else {
        match agg_step(AggregationState::Sum { acc }, vs[0]) {
            Ok(s2) => {
                match vs[0] {
                    DataValue::Null => {
                        lemma_sum_run(acc, vs.drop_first());
                    },
                    DataValue::Int64(x) => {
                        lemma_count_non_null_nonneg(vs.drop_first());
                        match acc {
                            Some(b) => {
                                lemma_sum_run(Some((b + x) as i64), vs.drop_first());
                            },
                            None => {
                                lemma_sum_run(Some(x), vs.drop_first());
                            },
                        }
                    },
                    DataValue::Bool(_) => {},
                }
            },
            Err(e) => {},
        }
    }
}

/// Sum correctness: a `Sum` aggregate over a group reports the arithmetic
/// sum of the group's non-null scalars, and the missing result when the
/// group held no non-null scalar at all.
pub proof fn lemma_sum_correct(vs: Seq<DataValue>)
    requires
        run_updates(agg_init(AggKind::Sum), vs) is Ok,
    ensures
        count_non_null(vs) == 0 ==> agg_output(
            run_updates(agg_init(AggKind::Sum), vs)->Ok_0,
        ) == DataValue::Null,
        count_non_null(vs) != 0 ==> i64::MIN <= sum_of_values(vs) <= i64::MAX && agg_output(
            run_updates(agg_init(AggKind::Sum), vs)->Ok_0,
        ) == DataValue::Int64(sum_of_values(vs) as i64),
{
    lemma_sum_run(None, vs);
}

/// Output idempotence: a state's reported result is a function of the state
/// alone, so repeated `output` calls without an intervening update agree.
pub proof fn lemma_output_idempotent(s: AggregationState, r1: DataValue, r2: DataValue)
    requires
        r1 == agg_output(s),
        r2 == agg_output(s),
    ensures
        r1 == r2,
{
}

/// A successful vector update steps every state with its own argument.
proof fn lemma_update_states_index(states: Seq<AggregationState>, args: Seq<DataValue>)
    requires
        args.len() == states.len(),
        update_states(states, args) is Ok,
    ensures
        update_states(states, args)->Ok_0.len() == states.len(),
        forall|j: int|
            0 <= j < states.len() ==> agg_step(states[j], args[j]) == Ok::<
                AggregationState,
                ExecutorError,
            >(update_states(states, args)->Ok_0[j]),
    decreases states.len(),
{
    if states.len() == 0 {
    } else {
        match agg_step(states[0], args[0]) {
            Ok(s2) => {
                lemma_update_states_index(states.drop_first(), args.drop_first());
                assert forall|j: int| 0 <= j < states.len() implies agg_step(states[j], args[j])
                    == Ok::<AggregationState, ExecutorError>(
                    update_states(states, args)->Ok_0[j],
                ) by {
                    if j > 0 {
                        assert(states.drop_first()[j - 1] == states[j]);
                        assert(args.drop_first()[j - 1] == args[j]);
                    }
                }
            },
            Err(e) => {},
        }
    }
}

/// Appending one scalar on the right runs it as one further step.
proof fn lemma_run_updates_push(s: AggregationState, vs: Seq<DataValue>, y: DataValue)
    ensures
        run_updates(s, vs) matches Ok(s2) ==> run_updates(s, vs.push(y)) == agg_step(s2, y),
        run_updates(s, vs) matches Err(e) ==> run_updates(s, vs.push(y)) == Err::<
            AggregationState,
            ExecutorError,
        >(e),
    decreases vs.len(),
{
    if vs.len() == 0 {
        assert(vs.push(y)[0] == y);
        assert(vs.push(y).drop_first() =~= Seq::<DataValue>::empty());
        match agg_step(s, y) {
            Ok(s2) => {
                assert(run_updates(s2, Seq::<DataValue>::empty()) == Ok::<
                    AggregationState,
                    ExecutorError,
                >(s2));
            },
            Err(e) => {},
        }
    } else {
        assert(vs.push(y)[0] == vs[0]);
        assert(vs.push(y).drop_first() =~= vs.drop_first().push(y));
        match agg_step(s, vs[0]) {
            Ok(s2) => {
                lemma_run_updates_push(s2, vs.drop_first(), y);
            },
            Err(e) => {},
        }
    }
}

/// Whether a row belongs to the group keyed `k`.
pub open spec fn has_key(r: RowModel, k: Seq<DataValue>) -> bool {
    r.0 == k
}

/// The argument scalars that aggregate call `j` consumes within the group
/// keyed `k`, in row order.
pub open spec fn group_args(rows: Seq<RowModel>, k: Seq<DataValue>, j: int) -> Seq<DataValue> {
    rows.filter(|r: RowModel| has_key(r, k)).map_values(|r: RowModel| r.1[j])
}

/// Every row carries one argument scalar per aggregate call.
pub open spec fn rows_wf(rows: Seq<RowModel>, agg_calls: Seq<BoundAggCall>) -> bool {
    forall|i: int| 0 <= i < rows.len() ==> (#[trigger] rows[i]).1.len() == agg_calls.len()
}

/// A key that no row carries selects no arguments.
proof fn lemma_group_args_absent(rows: Seq<RowModel>, k: Seq<DataValue>, j: int)
    requires
        !row_keys(rows).contains(k),
    ensures
        group_args(rows, k, j) == Seq::<DataValue>::empty(),
    decreases rows.len(),
{
    reveal_with_fuel(Seq::<RowModel>::filter, 2);
    if rows.len() == 0 {
        assert(group_args(rows, k, j) =~= Seq::<DataValue>::empty());
    } else {
        let prev = rows.drop_last();
        assert(!row_keys(prev).contains(k)) by {
            if row_keys(prev).contains(k) {
                let t = choose|t: int|
                    0 <= t < row_keys(prev).len() && row_keys(prev)[t] == k;
                assert(row_keys(rows)[t] == k);
            }
        }
        lemma_group_args_absent(prev, k, j);
        if rows.last().0 == k {
            assert(row_keys(rows)[rows.len() - 1] == k);
        }
        assert(group_args(rows, k, j) == group_args(prev, k, j));
    }
}

/// After a successful run from the empty store, each group's state for each
/// aggregate call is exactly the run of that call's identity state over the
/// group's own argument scalars, and the groups are exactly the keys seen.
proof fn lemma_grouping(rows: Seq<RowModel>, agg_calls: Seq<BoundAggCall>)
    requires
        rows_wf(rows, agg_calls),
        run_rows(
            Map::<Seq<DataValue>, Seq<AggregationState>>::empty(),
            rows,
            agg_calls,
        ) is Ok,
    ensures
        forall|k: Seq<DataValue>|
            #[trigger] run_rows(
                Map::<Seq<DataValue>, Seq<AggregationState>>::empty(),
                rows,
                agg_calls,
            )->Ok_0.dom().contains(k) <==> row_keys(rows).contains(k),
        forall|k: Seq<DataValue>|
            run_rows(
                Map::<Seq<DataValue>, Seq<AggregationState>>::empty(),
                rows,
                agg_calls,
            )->Ok_0.dom().contains(k) ==> (#[trigger] run_rows(
                Map::<Seq<DataValue>, Seq<AggregationState>>::empty(),
                rows,
                agg_calls,
            )->Ok_0[k]).len() == agg_calls.len(),
        forall|k: Seq<DataValue>, j: int|
            run_rows(
                Map::<Seq<DataValue>, Seq<AggregationState>>::empty(),
                rows,
                agg_calls,
            )->Ok_0.dom().contains(k) && 0 <= j < agg_calls.len() ==> run_updates(
                agg_init(agg_calls[j].kind),
                group_args(rows, k, j),
            ) == Ok::<AggregationState, ExecutorError>(
                #[trigger] run_rows(
                    Map::<Seq<DataValue>, Seq<AggregationState>>::empty(),
                    rows,
                    agg_calls,
                )->Ok_0[k][j],
            ),
    decreases rows.len(),
{
    reveal_with_fuel(Seq::<RowModel>::filter, 2);
    let empty_map = Map::<Seq<DataValue>, Seq<AggregationState>>::empty();
    if rows.len() == 0 {
    } else {
        let prev = rows.drop_last();
        let last = rows.last();
        assert(prev.push(last) =~= rows);
        crate::model::lemma_run_rows_push(empty_map, prev, last, agg_calls);
        let m_prev = run_rows(empty_map, prev, agg_calls)->Ok_0;
        lemma_grouping(prev, agg_calls);
        let k0 = last.0;
        let states0 = if m_prev.dom().contains(k0) {
            m_prev[k0]
        } else {
            crate::aggregation::init_states(agg_calls)
        };
        let s2 = update_states(states0, last.1)->Ok_0;
        let m = run_rows(empty_map, rows, agg_calls)->Ok_0;
        assert(m == m_prev.insert(k0, s2));
        assert(states0.len() == agg_calls.len());
        lemma_update_states_index(states0, last.1);
        assert(row_keys(prev).push(k0) =~= row_keys(rows));
        assert forall|k: Seq<DataValue>| #[trigger] m.dom().contains(k) <==> row_keys(
            rows,
        ).contains(k) by {
            if m.dom().contains(k) {
                if k == k0 {
                    assert(row_keys(rows)[rows.len() - 1] == k0);
                } else {
                    assert(m_prev.dom().contains(k));
                    let t = choose|t: int|
                        0 <= t < row_keys(prev).len() && row_keys(prev)[t] == k;
                    assert(row_keys(rows)[t] == k);
                }
            }
            if row_keys(rows).contains(k) {
                let t = choose|t: int|
                    0 <= t < row_keys(rows).len() && row_keys(rows)[t] == k;
                if t < prev.len() {
                    assert(row_keys(prev)[t] == k);
                } else {
                    assert(k == k0);
                }
            }
        }
        assert forall|k: Seq<DataValue>, j: int|
            m.dom().contains(k) && 0 <= j < agg_calls.len() implies run_updates(
            agg_init(agg_calls[j].kind),
            group_args(rows, k, j),
        ) == Ok::<AggregationState, ExecutorError>(#[trigger] m[k][j]) by {
            if k == k0 {
                assert(group_args(rows, k, j) =~= group_args(prev, k, j).push(last.1[j]));
                if m_prev.dom().contains(k0) {
                    lemma_run_updates_push(
                        agg_init(agg_calls[j].kind),
                        group_args(prev, k, j),
                        last.1[j],
                    );
                    assert(run_updates(agg_init(agg_calls[j].kind), group_args(prev, k, j))
                        == Ok::<AggregationState, ExecutorError>(m_prev[k0][j]));
                    assert(agg_step(states0[j], last.1[j]) == Ok::<
                        AggregationState,
                        ExecutorError,
                    >(s2[j]));
                } else {
                    assert(!row_keys(prev).contains(k0));
                    lemma_group_args_absent(prev, k0, j);
                    lemma_run_updates_push(
                        agg_init(agg_calls[j].kind),
                        Seq::<DataValue>::empty(),
                        last.1[j],
                    );
                    assert(run_updates(
                        agg_init(agg_calls[j].kind),
                        Seq::<DataValue>::empty(),
                    ) == Ok::<AggregationState, ExecutorError>(agg_init(agg_calls[j].kind)));
                    assert(states0[j] == agg_init(agg_calls[j].kind));
                    assert(agg_step(states0[j], last.1[j]) == Ok::<
                        AggregationState,
                        ExecutorError,
                    >(s2[j]));
                }
            } else {
                assert(group_args(rows, k, j) == group_args(prev, k, j));
                assert(m[k] == m_prev[k]);
            }
        }
        assert forall|k: Seq<DataValue>|
            m.dom().contains(k) implies (#[trigger] m[k]).len() == agg_calls.len() by {
            if k != k0 {
                assert(m[k] == m_prev[k]);
            }
        }
    }
}

/// Inserting one row's contribution into a running multiset of one group's
/// argument scalars.
pub open spec fn group_args_step(k: Seq<DataValue>, j: int) -> spec_fn(
    RowModel,
    Multiset<DataValue>,
) -> Multiset<DataValue> {
    |r: RowModel, acc: Multiset<DataValue>|
        if has_key(r, k) {
            acc.insert(r.1[j])
        } else {
            acc
        }
}

/// Folding `group_args_step` over the rows collects the multiset of the
/// group's argument scalars on top of the accumulator.
proof fn lemma_group_args_fold(
    rows: Seq<RowModel>,
    k: Seq<DataValue>,
    j: int,
    b: Multiset<DataValue>,
)
    ensures
        rows.fold_right(group_args_step(k, j), b) == b.add(group_args(rows, k, j).to_multiset()),
    decreases rows.len(),
{
    broadcast use vstd::seq_lib::group_to_multiset_ensures;

    reveal_with_fuel(Seq::<RowModel>::filter, 2);
    let g = group_args_step(k, j);
    if rows.len() == 0 {
        assert(group_args(rows, k, j) =~= Seq::<DataValue>::empty());
        assert(Seq::<DataValue>::empty().to_multiset() =~= Multiset::<DataValue>::empty());
        assert(b.add(Multiset::<DataValue>::empty()) =~= b);
    } else {
        let prev = rows.drop_last();
        let last = rows.last();
        lemma_group_args_fold(prev, k, j, g(last, b));
        if has_key(last, k) {
            assert(group_args(rows, k, j) =~= group_args(prev, k, j).push(last.1[j]));
            assert(group_args(rows, k, j).to_multiset() == group_args(
                prev,
                k,
                j,
            ).to_multiset().insert(last.1[j]));
            assert(b.insert(last.1[j]).add(group_args(prev, k, j).to_multiset()) =~= b.add(
                group_args(prev, k, j).to_multiset().insert(last.1[j]),
            ));
        } else {
            assert(group_args(rows, k, j) == group_args(prev, k, j));
        }
    }
}

/// Rows with the same multiset hand each group the same multiset of
/// argument scalars, whatever their order.
proof fn lemma_group_args_multiset(
    rows1: Seq<RowModel>,
    rows2: Seq<RowModel>,
    k: Seq<DataValue>,
    j: int,
)
    requires
        rows1.to_multiset() == rows2.to_multiset(),
    ensures
        group_args(rows1, k, j).to_multiset() == group_args(rows2, k, j).to_multiset(),
{
    let g = group_args_step(k, j);
    assert forall|x: RowModel, y: RowModel, v: Multiset<DataValue>| #[trigger] g(x, g(y, v)) == g(
        y,
        g(x, v),
    ) by {
        if has_key(x, k) && has_key(y, k) {
            assert(v.insert(y.1[j]).insert(x.1[j]) =~= v.insert(x.1[j]).insert(y.1[j]));
        }
    }
    vstd::seq_lib::lemma_fold_right_permutation(
        rows1,
        rows2,
        g,
        Multiset::<DataValue>::empty(),
    );
    lemma_group_args_fold(rows1, k, j, Multiset::<DataValue>::empty());
    lemma_group_args_fold(rows2, k, j, Multiset::<DataValue>::empty());
    assert(Multiset::<DataValue>::empty().add(group_args(rows1, k, j).to_multiset())
        =~= group_args(rows1, k, j).to_multiset());
    assert(Multiset::<DataValue>::empty().add(group_args(rows2, k, j).to_multiset())
        =~= group_args(rows2, k, j).to_multiset());
}

/// Appending one scalar adds its contribution to the non-null count.
proof fn lemma_count_non_null_push(vs: Seq<DataValue>, x: DataValue)
    ensures
        count_non_null(vs.push(x)) == count_non_null(vs) + (if x == DataValue::Null {
            0int
        } else {
            1int
        }),
    decreases vs.len(),
{
    if vs.len() == 0 {
        assert(vs.push(x)[0] == x);
        assert(vs.push(x).drop_first() =~= Seq::<DataValue>::empty());
        assert(count_non_null(Seq::<DataValue>::empty()) == 0);
    } else {
        assert(vs.push(x)[0] == vs[0]);
        assert(vs.push(x).drop_first() =~= vs.drop_first().push(x));
        lemma_count_non_null_push(vs.drop_first(), x);
    }
}

/// Appending one scalar adds its contribution to the sum.
proof fn lemma_sum_of_values_push(vs: Seq<DataValue>, x: DataValue)
    ensures
        sum_of_values(vs.push(x)) == sum_of_values(vs) + (match x {
            DataValue::Int64(v) => v as int,
            _ => 0int,
        }),
    decreases vs.len(),
{
    if vs.len() == 0 {
        assert(vs.push(x)[0] == x);
        assert(vs.push(x).drop_first() =~= Seq::<DataValue>::empty());
        assert(sum_of_values(Seq::<DataValue>::empty()) == 0);
    } else {
        assert(vs.push(x)[0] == vs[0]);
        assert(vs.push(x).drop_first() =~= vs.drop_first().push(x));
        lemma_sum_of_values_push(vs.drop_first(), x);
    }
}

/// Folding the non-null-count step over the scalars counts them.
proof fn lemma_count_fold(vs: Seq<DataValue>, b: int)
    ensures
        vs.fold_right(
            |v: DataValue, acc: int|
                acc + if v == DataValue::Null {
                    0int
                } else {
                    1int
                },
            b,
        ) == b + count_non_null(vs),
    decreases vs.len(),
{
    if vs.len() == 0 {
    } else {
        let prev = vs.drop_last();
        lemma_count_fold(
            prev,
            b + if vs.last() == DataValue::Null {
                0int
            } else {
                1int
            },
        );
        assert(prev.push(vs.last()) =~= vs);
        lemma_count_non_null_push(prev, vs.last());
    }
}

/// Folding the sum step over the scalars sums them.
proof fn lemma_sum_fold(vs: Seq<DataValue>, b: int)
    ensures
        vs.fold_right(
            |v: DataValue, acc: int|
                acc + match v {
                    DataValue::Int64(x) => x as int,
                    _ => 0int,
                },
            b,
        ) == b + sum_of_values(vs),
    decreases vs.len(),
{
    if vs.len() == 0 {
    } else {
        let prev = vs.drop_last();
        lemma_sum_fold(
            prev,
            b + match vs.last() {
                DataValue::Int64(x) => x as int,
                _ => 0int,
            },
        );
        assert(prev.push(vs.last()) =~= vs);
        lemma_sum_of_values_push(prev, vs.last());
    }
}

/// Non-null count and sum are properties of the multiset of scalars alone.
proof fn lemma_count_sum_multiset(vs1: Seq<DataValue>, vs2: Seq<DataValue>)
    requires
        vs1.to_multiset() == vs2.to_multiset(),
    ensures
        count_non_null(vs1) == count_non_null(vs2),
        sum_of_values(vs1) == sum_of_values(vs2),
{
    let fc = |v: DataValue, acc: int|
        acc + if v == DataValue::Null {
            0int
        } else {
            1int
        };
    let fs = |v: DataValue, acc: int|
        acc + match v {
            DataValue::Int64(x) => x as int,
            _ => 0int,
        };
    assert(vstd::seq_lib::commutative_foldr(fc));
    assert(vstd::seq_lib::commutative_foldr(fs));
    vstd::seq_lib::lemma_fold_right_permutation(vs1, vs2, fc, 0int);
    vstd::seq_lib::lemma_fold_right_permutation(vs1, vs2, fs, 0int);
    lemma_count_fold(vs1, 0int);
    lemma_count_fold(vs2, 0int);
    lemma_sum_fold(vs1, 0int);
    lemma_sum_fold(vs2, 0int);
}

/// What a `Min` state's accumulator holds after a successful run: the least
/// integer seen, drawn from the initial accumulator or the scalars.
proof fn lemma_min_run(acc: Option<i64>, vs: Seq<DataValue>)
    requires
        run_updates(AggregationState::Min { acc }, vs) is Ok,
    ensures
        run_updates(AggregationState::Min { acc }, vs)->Ok_0 is Min,
        ({
            let acc2 = run_updates(AggregationState::Min { acc }, vs)->Ok_0->Min_acc;
            &&& (acc2 is None ==> acc is None && forall|t: int|
                0 <= t < vs.len() ==> !((#[trigger] vs[t]) is Int64))
            &&& (acc2 matches Some(x) ==> (acc == Some(x) || exists|t: int|
                0 <= t < vs.len() && (#[trigger] vs[t]) == DataValue::Int64(x)))
            &&& (acc2 matches Some(x) ==> (acc matches Some(b) ==> x <= b))
            &&& (acc2 matches Some(x) ==> forall|t: int|
                0 <= t < vs.len() ==> ((#[trigger] vs[t]) matches DataValue::Int64(y) ==> x <= y))
        }),
    decreases vs.len(),
{
    if vs.len() == 0 {
    } else {
        match agg_step(AggregationState::Min { acc }, vs[0]) {
            Ok(s2) => {
                let acc1 = s2->Min_acc;
                lemma_min_run(acc1, vs.drop_first());
                assert forall|t: int|
                    0 <= t < vs.len() && t > 0 implies vs.drop_first()[t - 1] == vs[t] by {}
            },
            Err(e) => {},
        }
    }
}

/// What a `Max` state's accumulator holds after a successful run.
proof fn lemma_max_run(acc: Option<i64>, vs: Seq<DataValue>)
    requires
        run_updates(AggregationState::Max { acc }, vs) is Ok,
    ensures
        run_updates(AggregationState::Max { acc }, vs)->Ok_0 is Max,
        ({
            let acc2 = run_updates(AggregationState::Max { acc }, vs)->Ok_0->Max_acc;
            &&& (acc2 is None ==> acc is None && forall|t: int|
                0 <= t < vs.len() ==> !((#[trigger] vs[t]) is Int64))
            &&& (acc2 matches Some(x) ==> (acc == Some(x) || exists|t: int|
                0 <= t < vs.len() && (#[trigger] vs[t]) == DataValue::Int64(x)))
            &&& (acc2 matches Some(x) ==> (acc matches Some(b) ==> x >= b))
            &&& (acc2 matches Some(x) ==> forall|t: int|
                0 <= t < vs.len() ==> ((#[trigger] vs[t]) matches DataValue::Int64(y) ==> x >= y))
        }),
    decreases vs.len(),
{
    if vs.len() == 0 {
    } else {
        match agg_step(AggregationState::Max { acc }, vs[0]) {
            Ok(s2) => {
                let acc1 = s2->Max_acc;
                lemma_max_run(acc1, vs.drop_first());
                assert forall|t: int|
                    0 <= t < vs.len() && t > 0 implies vs.drop_first()[t - 1] == vs[t] by {}
            },
            Err(e) => {},
        }
    }
}

/// A fresh state fed the same scalars in any order ends the same: each
/// aggregate function's state is a function of the multiset of its inputs.
proof fn lemma_state_determined(kind: AggKind, vs1: Seq<DataValue>, vs2: Seq<DataValue>)
    requires
        vs1.to_multiset() == vs2.to_multiset(),
        run_updates(agg_init(kind), vs1) is Ok,
        run_updates(agg_init(kind), vs2) is Ok,
    ensures
        run_updates(agg_init(kind), vs1) == run_updates(agg_init(kind), vs2),
{
    broadcast use vstd::seq_lib::group_to_multiset_ensures;

    match kind {
        AggKind::RowCount => {
            lemma_row_count_run(0, vs1);
            lemma_row_count_run(0, vs2);
            assert(vs1.len() == vs1.to_multiset().len());
            assert(vs2.len() == vs2.to_multiset().len());
        },
        AggKind::Count => {
            lemma_count_run(0, vs1);
            lemma_count_run(0, vs2);
            lemma_count_sum_multiset(vs1, vs2);
        },
        AggKind::Sum => {
            lemma_sum_run(None, vs1);
            lemma_sum_run(None, vs2);
            lemma_count_sum_multiset(vs1, vs2);
        },
        AggKind::Min => {
            lemma_min_run(None, vs1);
            lemma_min_run(None, vs2);
            let acc1 = run_updates(agg_init(kind), vs1)->Ok_0->Min_acc;
            let acc2 = run_updates(agg_init(kind), vs2)->Ok_0->Min_acc;
            lemma_min_max_accs_agree(vs1, vs2, acc1, acc2, true);
        },
        AggKind::Max => {
            lemma_max_run(None, vs1);
            lemma_max_run(None, vs2);
            let acc1 = run_updates(agg_init(kind), vs1)->Ok_0->Max_acc;
            let acc2 = run_updates(agg_init(kind), vs2)->Ok_0->Max_acc;
            lemma_min_max_accs_agree(vs1, vs2, acc1, acc2, false);
        },
    }
}

/// Two extremal accumulators drawn from multiset-equal scalar sequences,
/// each bounding the other's sequence, coincide.
proof fn lemma_min_max_accs_agree(
    vs1: Seq<DataValue>,
    vs2: Seq<DataValue>,
    acc1: Option<i64>,
    acc2: Option<i64>,
    lower: bool,
)
    requires
        vs1.to_multiset() == vs2.to_multiset(),
        acc1 is None ==> forall|t: int| 0 <= t < vs1.len() ==> !((#[trigger] vs1[t]) is Int64),
        acc2 is None ==> forall|t: int| 0 <= t < vs2.len() ==> !((#[trigger] vs2[t]) is Int64),
        acc1 matches Some(x) ==> exists|t: int|
            0 <= t < vs1.len() && (#[trigger] vs1[t]) == DataValue::Int64(x),
        acc2 matches Some(x) ==> exists|t: int|
            0 <= t < vs2.len() && (#[trigger] vs2[t]) == DataValue::Int64(x),
        acc1 matches Some(x) ==> forall|t: int|
            0 <= t < vs1.len() ==> ((#[trigger] vs1[t]) matches DataValue::Int64(y) ==> (if lower {
                x <= y
            } else {
                x >= y
            })),
        acc2 matches Some(x) ==> forall|t: int|
            0 <= t < vs2.len() ==> ((#[trigger] vs2[t]) matches DataValue::Int64(y) ==> (if lower {
                x <= y
            } else {
                x >= y
            })),
    ensures
        acc1 == acc2,
{
    broadcast use vstd::seq_lib::group_to_multiset_ensures;

    match acc1 {
        Some(x1) => {
            let t1 = choose|t: int|
                0 <= t < vs1.len() && (#[trigger] vs1[t]) == DataValue::Int64(x1);
            assert(vs1.contains(DataValue::Int64(x1)));
            assert(vs1.to_multiset().count(DataValue::Int64(x1)) > 0);
            assert(vs2.to_multiset().count(DataValue::Int64(x1)) > 0);
            assert(vs2.contains(DataValue::Int64(x1)));
            let u1 = choose|t: int|
                0 <= t < vs2.len() && (#[trigger] vs2[t]) == DataValue::Int64(x1);
            match acc2 {
                Some(x2) => {
                    let t2 = choose|t: int|
                        0 <= t < vs2.len() && (#[trigger] vs2[t]) == DataValue::Int64(x2);
                    assert(vs2.contains(DataValue::Int64(x2)));
                    assert(vs2.to_multiset().count(DataValue::Int64(x2)) > 0);
                    assert(vs1.to_multiset().count(DataValue::Int64(x2)) > 0);
                    assert(vs1.contains(DataValue::Int64(x2)));
                    let u2 = choose|t: int|
                        0 <= t < vs1.len() && (#[trigger] vs1[t]) == DataValue::Int64(x2);
                },
                None => {
                    assert(!(vs2[u1] is Int64));
                    assert(false);
                },
            }
        },
        None => {
            match acc2 {
                Some(x2) => {
                    let t2 = choose|t: int|
                        0 <= t < vs2.len() && (#[trigger] vs2[t]) == DataValue::Int64(x2);
                    assert(vs2.contains(DataValue::Int64(x2)));
                    assert(vs2.to_multiset().count(DataValue::Int64(x2)) > 0);
                    assert(vs1.to_multiset().count(DataValue::Int64(x2)) > 0);
                    assert(vs1.contains(DataValue::Int64(x2)));
                    let u2 = choose|t: int|
                        0 <= t < vs1.len() && (#[trigger] vs1[t]) == DataValue::Int64(x2);
                    assert(!(vs1[u2] is Int64));
                    assert(false);
                },
                None => {},
            }
        },
    }
}

/// Determinism of grouping: two inputs carrying the same multiset of rows —
/// however those rows were ordered — that both aggregate successfully yield
/// the same map from group key to aggregation states.
pub proof fn theorem_grouping_determinism(
    rows1: Seq<RowModel>,
    rows2: Seq<RowModel>,
    agg_calls: Seq<BoundAggCall>,
)
    requires
        rows_wf(rows1, agg_calls),
        rows_wf(rows2, agg_calls),
        rows1.to_multiset() == rows2.to_multiset(),
        run_rows(Map::<Seq<DataValue>, Seq<AggregationState>>::empty(), rows1, agg_calls) is Ok,
        run_rows(Map::<Seq<DataValue>, Seq<AggregationState>>::empty(), rows2, agg_calls) is Ok,
    ensures
        run_rows(Map::<Seq<DataValue>, Seq<AggregationState>>::empty(), rows1, agg_calls)
            == run_rows(Map::<Seq<DataValue>, Seq<AggregationState>>::empty(), rows2, agg_calls),
{
    broadcast use vstd::seq_lib::group_to_multiset_ensures;

    let empty_map = Map::<Seq<DataValue>, Seq<AggregationState>>::empty();
    lemma_grouping(rows1, agg_calls);
    lemma_grouping(rows2, agg_calls);
    let m1 = run_rows(empty_map, rows1, agg_calls)->Ok_0;
    let m2 = run_rows(empty_map, rows2, agg_calls)->Ok_0;
    assert forall|k: Seq<DataValue>| #[trigger] row_keys(rows1).contains(k) implies row_keys(
        rows2,
    ).contains(k) by {
        let t = choose|t: int| 0 <= t < row_keys(rows1).len() && row_keys(rows1)[t] == k;
        let r = rows1[t];
        assert(rows1.contains(r));
        assert(rows1.to_multiset().count(r) > 0);
        assert(rows2.to_multiset().count(r) > 0);
        assert(rows2.contains(r));
        let u = choose|u: int| 0 <= u < rows2.len() && rows2[u] == r;
        assert(row_keys(rows2)[u] == k);
    }
    assert forall|k: Seq<DataValue>| #[trigger] row_keys(rows2).contains(k) implies row_keys(
        rows1,
    ).contains(k) by {
        let t = choose|t: int| 0 <= t < row_keys(rows2).len() && row_keys(rows2)[t] == k;
        let r = rows2[t];
        assert(rows2.contains(r));
        assert(rows2.to_multiset().count(r) > 0);
        assert(rows1.to_multiset().count(r) > 0);
        assert(rows1.contains(r));
        let u = choose|u: int| 0 <= u < rows1.len() && rows1[u] == r;
        assert(row_keys(rows1)[u] == k);
    }
    assert forall|k: Seq<DataValue>| #[trigger] m1.dom().contains(k) implies m1[k] == m2[k] by {
        assert(m2.dom().contains(k));
        assert(m1[k].len() == agg_calls.len());
        assert(m2[k].len() == agg_calls.len());
        assert forall|j: int| 0 <= j < agg_calls.len() implies m1[k][j] == #[trigger] m2[k][j] by {
            lemma_group_args_multiset(rows1, rows2, k, j);
            assert(run_updates(agg_init(agg_calls[j].kind), group_args(rows1, k, j)) == Ok::<
                AggregationState,
                ExecutorError,
            >(m1[k][j]));
            assert(run_updates(agg_init(agg_calls[j].kind), group_args(rows2, k, j)) == Ok::<
                AggregationState,
                ExecutorError,
            >(m2[k][j]));
            lemma_state_determined(
                agg_calls[j].kind,
                group_args(rows1, k, j),
                group_args(rows2, k, j),
            );
        }
        assert(m1[k] =~= m2[k]);
    }
    assert(m1 =~= m2);
}

/// Every flattened row carries one argument scalar per aggregate call.
proof fn lemma_flat_rows_wf(
    chunks: Seq<DataChunk>,
    group_keys: Seq<BoundExpr>,
    agg_calls: Seq<BoundAggCall>,
)
    ensures
        rows_wf(flat_rows(chunks, group_keys, agg_calls), agg_calls),
    decreases chunks.len(),
{
    if chunks.len() == 0 {
    } else {
        lemma_flat_rows_wf(chunks.drop_first(), group_keys, agg_calls);
        let head = chunk_rows(chunks[0], group_keys, agg_calls);
        let rest = flat_rows(chunks.drop_first(), group_keys, agg_calls);
        assert forall|i: int|
            0 <= i < flat_rows(chunks, group_keys, agg_calls).len() implies (#[trigger] flat_rows(
            chunks,
            group_keys,
            agg_calls,
        )[i]).1.len() == agg_calls.len() by {
            if i < head.len() {
                assert(flat_rows(chunks, group_keys, agg_calls)[i] == head[i]);
            } else {
                assert(flat_rows(chunks, group_keys, agg_calls)[i] == rest[i - head.len()]);
            }
        }
    }
}

/// On an all-successful, all-evaluating input, consuming batch after batch
/// is the same as consuming the flattened row sequence in one stroke.
proof fn lemma_process_is_run_flat(
    m: GroupMap,
    inputs: Seq<Result<DataChunk, ExecutorError>>,
    group_keys: Seq<BoundExpr>,
    agg_calls: Seq<BoundAggCall>,
)
    requires
        forall|c: int|
            0 <= c < inputs.len() ==> (#[trigger] inputs[c]) is Ok && evals_ok(
                inputs[c]->Ok_0,
                group_keys,
                agg_calls,
            ),
    ensures
        process_chunks(m, inputs, group_keys, agg_calls) == run_rows(
            m,
            flat_rows(ok_chunks(inputs), group_keys, agg_calls),
            agg_calls,
        ),
    decreases inputs.len(),
{
    if inputs.len() == 0 {
        assert(ok_chunks(inputs) =~= Seq::<DataChunk>::empty());
        assert(run_rows(m, Seq::<RowModel>::empty(), agg_calls) == Ok::<GroupMap, ExecutorError>(
            m,
        ));
    } else {
        let chunk = inputs[0]->Ok_0;
        let rest = inputs.drop_first();
        assert(ok_chunks(inputs)[0] == chunk);
        assert(ok_chunks(inputs).drop_first() =~= ok_chunks(rest));
        let head_rows = chunk_rows(chunk, group_keys, agg_calls);
        let rest_rows = flat_rows(ok_chunks(rest), group_keys, agg_calls);
        lemma_run_rows_append(m, head_rows, rest_rows, agg_calls);
        match run_rows(m, head_rows, agg_calls) {
            Ok(m2) => {
                lemma_process_is_run_flat(m2, rest, group_keys, agg_calls);
            },
            Err(e) => {},
        }
    }
}

/// Batch-splitting invariance: however the same rows are cut into batches,
/// the operator computes the same group map — the result depends on the
/// flattened row sequence alone.
pub proof fn lemma_batch_splitting_invariance(
    inputs1: Seq<Result<DataChunk, ExecutorError>>,
    inputs2: Seq<Result<DataChunk, ExecutorError>>,
    group_keys: Seq<BoundExpr>,
    agg_calls: Seq<BoundAggCall>,
)
    requires
        forall|c: int|
            0 <= c < inputs1.len() ==> (#[trigger] inputs1[c]) is Ok && evals_ok(
                inputs1[c]->Ok_0,
                group_keys,
                agg_calls,
            ),
        forall|c: int|
            0 <= c < inputs2.len() ==> (#[trigger] inputs2[c]) is Ok && evals_ok(
                inputs2[c]->Ok_0,
                group_keys,
                agg_calls,
            ),
        flat_rows(ok_chunks(inputs1), group_keys, agg_calls) == flat_rows(
            ok_chunks(inputs2),
            group_keys,
            agg_calls,
        ),
    ensures
        process_chunks(
            Map::<Seq<DataValue>, Seq<AggregationState>>::empty(),
            inputs1,
            group_keys,
            agg_calls,
        ) == process_chunks(
            Map::<Seq<DataValue>, Seq<AggregationState>>::empty(),
            inputs2,
            group_keys,
            agg_calls,
        ),
{
    let empty_map = Map::<Seq<DataValue>, Seq<AggregationState>>::empty();
    lemma_process_is_run_flat(empty_map, inputs1, group_keys, agg_calls);
    lemma_process_is_run_flat(empty_map, inputs2, group_keys, agg_calls);
}

/// Determinism of grouping at the operator's boundary: two all-successful
/// upstream sequences whose flattened rows form one multiset — split into
/// batches and ordered however — yield the same group map.
pub proof fn theorem_batch_order_invariance(
    inputs1: Seq<Result<DataChunk, ExecutorError>>,
    inputs2: Seq<Result<DataChunk, ExecutorError>>,
    group_keys: Seq<BoundExpr>,
    agg_calls: Seq<BoundAggCall>,
)
    requires
        forall|c: int|
            0 <= c < inputs1.len() ==> (#[trigger] inputs1[c]) is Ok && evals_ok(
                inputs1[c]->Ok_0,
                group_keys,
                agg_calls,
            ),
        forall|c: int|
            0 <= c < inputs2.len() ==> (#[trigger] inputs2[c]) is Ok && evals_ok(
                inputs2[c]->Ok_0,
                group_keys,
                agg_calls,
            ),
        flat_rows(ok_chunks(inputs1), group_keys, agg_calls).to_multiset() == flat_rows(
            ok_chunks(inputs2),
            group_keys,
            agg_calls,
        ).to_multiset(),
        process_chunks(
            Map::<Seq<DataValue>, Seq<AggregationState>>::empty(),
            inputs1,
            group_keys,
            agg_calls,
        ) is Ok,
        process_chunks(
            Map::<Seq<DataValue>, Seq<AggregationState>>::empty(),
            inputs2,
            group_keys,
            agg_calls,
        ) is Ok,
    ensures
        process_chunks(
            Map::<Seq<DataValue>, Seq<AggregationState>>::empty(),
            inputs1,
            group_keys,
            agg_calls,
        ) == process_chunks(
            Map::<Seq<DataValue>, Seq<AggregationState>>::empty(),
            inputs2,
            group_keys,
            agg_calls,
        ),
{
    let empty_map = Map::<Seq<DataValue>, Seq<AggregationState>>::empty();
    lemma_process_is_run_flat(empty_map, inputs1, group_keys, agg_calls);
    lemma_process_is_run_flat(empty_map, inputs2, group_keys, agg_calls);
    lemma_flat_rows_wf(ok_chunks(inputs1), group_keys, agg_calls);
    lemma_flat_rows_wf(ok_chunks(inputs2), group_keys, agg_calls);
    theorem_grouping_determinism(
        flat_rows(ok_chunks(inputs1), group_keys, agg_calls),
        flat_rows(ok_chunks(inputs2), group_keys, agg_calls),
        agg_calls,
    );
}

} // verus!
