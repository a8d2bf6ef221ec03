//! The hash-aggregation executor.
//!
//! Pulls every batch from its upstream source, folds each row into the
//! group-state store, and — once the input is exhausted — materializes the
//! store into the one output batch: key columns first, result columns after,
//! one row per distinct group key, in first-seen key order.

use vstd::prelude::*;
use crate::aggregation::{agg_output, create_agg_states, init_states, BoundAggCall};
use crate::array::{ArrayBuilderImpl, ArrayImpl, DataChunk};
use crate::expr::BoundExpr;
use crate::group_key::{key_new, key_push, key_values};
use crate::model::{
    chunk_args_of_row, chunk_key_of_row, chunk_rows, evals_ok, extend_keys, flat_rows,
    keys_in_order, lemma_extend_keys_append, lemma_flat_rows_push, lemma_process_chunks_prefix_err,
    lemma_process_chunks_push, lemma_run_rows_prefix_err, lemma_run_rows_push, ok_chunks,
    process_chunks, row_step, run_rows, GroupMap,
};
use crate::store::{lemma_update_states_len, update_states, StateEntries};
use crate::value::{DataValue, ExecutorError};

verus! {

/// The executor of hash aggregation.
pub struct HashAggExecutor {
    /// The aggregate calls, each with exactly one argument expression.
    pub agg_calls: Vec<BoundAggCall>,
    /// The group-by expressions.
    pub group_keys: Vec<BoundExpr>,
    /// The upstream source: its batches in arrival order, or, in place of a
    /// batch, the failure that ended it.
    pub child: Vec<Result<DataChunk, ExecutorError>>,
}

impl HashAggExecutor {
    /// Every successful upstream batch is column-aligned.
    pub open spec fn inputs_wf(self) -> bool {
        forall|c: int|
            0 <= c < self.child@.len() ==> ((#[trigger] self.child@[c]) matches Ok(chunk)
                ==> chunk.well_formed())
    }

    /// Every aggregate call carries exactly one argument expression.
    pub open spec fn calls_wf(self) -> bool {
        forall|j: int|
            0 <= j < self.agg_calls@.len() ==> (#[trigger] self.agg_calls@[j]).args@.len() == 1
    }

    /// Fold one batch into the store, row by row.
    #[verifier::loop_isolation(false)]
    pub(crate) fn execute_inner(
        state_entries: &mut StateEntries,
        chunk: DataChunk,
        agg_calls: &Vec<BoundAggCall>,
        group_keys: &Vec<BoundExpr>,
    ) -> (r: Result<(), ExecutorError>)
        requires
            old(state_entries).wf(),
            chunk.well_formed(),
            forall|j: int|
                0 <= j < agg_calls@.len() ==> (#[trigger] agg_calls@[j]).args@.len() == 1,
            forall|i: int|
                0 <= i < old(state_entries).key_seq().len() ==> (#[trigger] old(
                    state_entries
                ).key_seq()[i]).len() == group_keys@.len(),
            forall|i: int|
                0 <= i < old(state_entries).key_seq().len() ==> (#[trigger] old(
                    state_entries
                ).states_seq()[i]).len() == agg_calls@.len(),
        ensures
            final(state_entries).wf(),
            forall|i: int|
                0 <= i < final(state_entries).key_seq().len() ==> (#[trigger] final(
                    state_entries
                ).key_seq()[i]).len() == group_keys@.len(),
            forall|i: int|
                0 <= i < final(state_entries).key_seq().len() ==> (#[trigger] final(
                    state_entries
                ).states_seq()[i]).len() == agg_calls@.len(),
            evals_ok(chunk, group_keys@, agg_calls@) ==> (match run_rows(
                old(state_entries).as_map(),
                chunk_rows(chunk, group_keys@, agg_calls@),
                agg_calls@,
            ) {
                Ok(m2) => r == Ok::<(), ExecutorError>(()) && final(state_entries).as_map() == m2
                    && final(state_entries).key_seq() == extend_keys(
                    old(state_entries).key_seq(),
                    chunk_rows(chunk, group_keys@, agg_calls@),
                ),
                Err(e) => r == Err::<(), ExecutorError>(e),
            }),
            !evals_ok(chunk, group_keys@, agg_calls@) ==> r == Err::<(), ExecutorError>(
                ExecutorError::ColumnOutOfRange,
            ) && *final(state_entries) == *old(state_entries),
    {
        let ghost gks = group_keys@;
        let ghost aggs = agg_calls@;

        // Eval group keys and arguments
        let mut group_cols: Vec<ArrayImpl> = Vec::new();
        let mut j: usize = 0;
        while j < group_keys.len()
            invariant
                j <= gks.len(),
                group_cols@.len() == j,
                forall|t: int| 0 <= t < j ==> (#[trigger] gks[t]).eval_ok(chunk),
                forall|t: int|
                    0 <= t < j ==> (#[trigger] group_cols@[t]).values@ == gks[t].eval_values(
                        chunk,
                    ),
            decreases gks.len() - j,
        {
            match group_keys[j].eval_array(&chunk) {
                Ok(col) => {
                    group_cols.push(col);
                },
                Err(e) => {
                    return Err(e);
                },
            }
            j = j + 1;
        }
        let mut arrays: Vec<ArrayImpl> = Vec::new();
        let mut j: usize = 0;
        while j < agg_calls.len()
            invariant
                j <= aggs.len(),
                arrays@.len() == j,
                forall|t: int| 0 <= t < j ==> (#[trigger] aggs[t]).args@[0].eval_ok(chunk),
                forall|t: int|
                    0 <= t < j ==> (#[trigger] arrays@[t]).values@ == aggs[t].args@[0].eval_values(
                        chunk,
                    ),
            decreases aggs.len() - j,
        {
            match agg_calls[j].args[0].eval_array(&chunk) {
                Ok(col) => {
                    arrays.push(col);
                },
                Err(e) => {
                    return Err(e);
                },
            }
            j = j + 1;
        }
        assert(evals_ok(chunk, gks, aggs));

        // Update states
        let ghost rows = chunk_rows(chunk, gks, aggs);
        let ghost m0 = old(state_entries).as_map();
        let ghost ks0 = old(state_entries).key_seq();
        let num_rows = chunk.cardinality();
        let mut row_idx: usize = 0;
        while row_idx < num_rows
            invariant
                row_idx <= num_rows,
                state_entries.wf(),
                run_rows(m0, rows.take(row_idx as int), aggs) == Ok::<GroupMap, ExecutorError>(
                    state_entries.as_map(),
                ),
                state_entries.key_seq() == extend_keys(ks0, rows.take(row_idx as int)),
                forall|i: int|
                    0 <= i < state_entries.key_seq().len() ==> (#[trigger] state_entries.key_seq()[
                        i
                    ]).len() == gks.len(),
                forall|i: int|
                    0 <= i < state_entries.key_seq().len() ==> (#[trigger] state_entries.states_seq()[
                        i
                    ]).len() == aggs.len(),
            decreases num_rows - row_idx,
        {
            let ghost row = rows[row_idx as int];
            proof {
                assert(row.0 == chunk_key_of_row(chunk, gks, row_idx as int));
                assert(row.1 == chunk_args_of_row(chunk, aggs, row_idx as int));
            }

            // Build the row's group key.
            let mut group_key = key_new();
            let mut j: usize = 0;
            while j < group_cols.len()
                invariant
                    j <= gks.len(),
                    key_values(group_key) == chunk_key_of_row(chunk, gks, row_idx as int).take(
                        j as int,
                    ),
                decreases gks.len() - j,
            {
                let v = group_cols[j].get(row_idx);
                key_push(&mut group_key, v);
                proof {
                    assert(chunk_key_of_row(chunk, gks, row_idx as int).take(j as int).push(
                        chunk_key_of_row(chunk, gks, row_idx as int)[j as int],
                    ) =~= chunk_key_of_row(chunk, gks, row_idx as int).take(j as int + 1));
                }
                j = j + 1;
            }
            proof {
                assert(chunk_key_of_row(chunk, gks, row_idx as int).take(gks.len() as int)
                    =~= chunk_key_of_row(chunk, gks, row_idx as int));
            }
            let ghost kv = key_values(group_key);

            // Extract the row's argument scalars.
            let mut row_args: Vec<DataValue> = Vec::new();
            let mut j: usize = 0;
            while j < arrays.len()
                invariant
                    j <= aggs.len(),
                    row_args@ == chunk_args_of_row(chunk, aggs, row_idx as int).take(j as int),
                decreases aggs.len() - j,
            {
                let v = arrays[j].get(row_idx);
                row_args.push(v);
                proof {
                    assert(chunk_args_of_row(chunk, aggs, row_idx as int).take(j as int).push(
                        chunk_args_of_row(chunk, aggs, row_idx as int)[j as int],
                    ) =~= chunk_args_of_row(chunk, aggs, row_idx as int).take(j as int + 1));
                }
                j = j + 1;
            }
            proof {
                assert(chunk_args_of_row(chunk, aggs, row_idx as int).take(aggs.len() as int)
                    =~= chunk_args_of_row(chunk, aggs, row_idx as int));
            }

            // Look the key up; first encounter inserts fresh states.
            let ghost m_pre = state_entries.as_map();
            let ghost ks_pre = state_entries.key_seq();
            proof {
                state_entries.lemma_dom();
                state_entries.lemma_len();
            }
            let idx: usize = match state_entries.find(&group_key) {
                Some(i) => i,
                None => {
                    let states = create_agg_states(agg_calls);
                    let i = state_entries.group_count();
                    state_entries.insert_new(group_key, states);
                    i
                },
            };
            let ghost states_pre = state_entries.states_seq()[idx as int];
            proof {
                state_entries.lemma_len();
                if m_pre.dom().contains(kv) {
                    state_entries.lemma_entry(idx as int);
                    assert(m_pre[kv] == states_pre);
                } else {
                    assert(!ks_pre.contains(kv));
                    assert(idx == ks_pre.len());
                    assert(ks_pre.len() == state_entries.states_seq().len() - 1);
                    assert(states_pre == init_states(aggs));
                }
            }

            let res = state_entries.update_row(idx, &row_args);
            proof {
                lemma_run_rows_push(m0, rows.take(row_idx as int), row, aggs);
                assert(rows.take(row_idx as int).push(row) =~= rows.take(row_idx as int + 1));
            }
            match res {
                Ok(()) => {},
                Err(e) => {
                    proof {
                        assert(row_step(m_pre, row, aggs) == Err::<GroupMap, ExecutorError>(e));
                        assert(run_rows(m0, rows.take(row_idx as int + 1), aggs) == Err::<
                            GroupMap,
                            ExecutorError,
                        >(e));
                        lemma_run_rows_prefix_err(m0, rows, row_idx as int + 1, aggs);
                    }
                    return Err(e);
                },
            }
            proof {
                state_entries.lemma_len();
                let s2 = update_states(states_pre, row.1)->Ok_0;
                lemma_update_states_len(states_pre, row.1);
                if m_pre.dom().contains(kv) {
                    assert(state_entries.as_map() == m_pre.insert(kv, s2));
                } else {
                    assert(state_entries.as_map() =~= m_pre.insert(kv, s2));
                }
                assert(run_rows(m0, rows.take(row_idx as int + 1), aggs) == Ok::<
                    GroupMap,
                    ExecutorError,
                >(state_entries.as_map()));
                assert(rows.take(row_idx as int + 1).drop_last() =~= rows.take(row_idx as int));
                assert(rows.take(row_idx as int + 1).last() == row);
                assert(state_entries.key_seq() == extend_keys(
                    ks0,
                    rows.take(row_idx as int + 1),
                ));
            }
            row_idx = row_idx + 1;
        }
        proof {
            assert(rows.take(num_rows as int) =~= rows);
        }
        Ok(())
    }

    /// Materialize the store into the single output batch.
    #[verifier::loop_isolation(false)]
    pub(crate) fn finish_agg(
        state_entries: StateEntries,
        agg_calls: Vec<BoundAggCall>,
        group_keys: Vec<BoundExpr>,
    ) -> (out: DataChunk)
        requires
            state_entries.wf(),
            forall|i: int|
                0 <= i < state_entries.key_seq().len() ==> (#[trigger] state_entries.key_seq()[
                    i
                ]).len() == group_keys@.len(),
            forall|i: int|
                0 <= i < state_entries.key_seq().len() ==> (#[trigger] state_entries.states_seq()[
                    i
                ]).len() == agg_calls@.len(),
        ensures
            out.well_formed(),
            out.arrays@.len() == group_keys@.len() + agg_calls@.len(),
            group_keys@.len() + agg_calls@.len() > 0 ==> out.spec_cardinality()
                == state_entries.key_seq().len(),
            forall|j: int|
                0 <= j < group_keys@.len() ==> (#[trigger] out.arrays@[j]).data_type
                    == group_keys@[j].return_type && out.arrays@[j].values@ == Seq::new(
                    state_entries.key_seq().len(),
                    |i: int| state_entries.key_seq()[i][j],
                ),
            forall|j: int|
                0 <= j < agg_calls@.len() ==> (#[trigger] out.arrays@[group_keys@.len() + j]).data_type
                    == agg_calls@[j].return_type && out.arrays@[group_keys@.len() + j].values@
                    == Seq::new(
                    state_entries.key_seq().len(),
                    |i: int| agg_output(state_entries.states_seq()[i][j]),
                ),
    {
        let ghost gks = group_keys@;
        let ghost aggs = agg_calls@;
        let n = state_entries.group_count();
        let mut columns: Vec<ArrayImpl> = Vec::new();

        // Key columns, in group-by-expression order.
        let mut j: usize = 0;
        while j < group_keys.len()
            invariant
                j <= gks.len(),
                columns@.len() == j,
                forall|t: int|
                    0 <= t < j ==> (#[trigger] columns@[t]).data_type == gks[t].return_type,
                forall|t: int|
                    0 <= t < j ==> (#[trigger] columns@[t]).values@ == Seq::new(
                        state_entries.key_seq().len(),
                        |i: int| state_entries.key_seq()[i][t],
                    ),
            decreases gks.len() - j,
        {
            let mut b = ArrayBuilderImpl::new(&group_keys[j].return_type);
            let mut i: usize = 0;
            while i < n
                invariant
                    i <= n,
                    j < gks.len(),
                    b.data_type == gks[j as int].return_type,
                    b.values@.len() == i,
                    forall|t: int|
                        0 <= t < i ==> b.values@[t] == state_entries.key_seq()[t][j as int],
                decreases n - i,
            {
                let v = state_entries.key_component(i, j);
                b.push(&v);
                i = i + 1;
            }
            proof {
                assert(b.values@ =~= Seq::new(
                    state_entries.key_seq().len(),
                    |i: int| state_entries.key_seq()[i][j as int],
                ));
            }
            columns.push(b.finish());
            j = j + 1;
        }

        // Aggregate result columns, in aggregate-call order.
        let mut j: usize = 0;
        while j < agg_calls.len()
            invariant
                j <= aggs.len(),
                columns@.len() == gks.len() + j,
                forall|t: int|
                    0 <= t < gks.len() ==> (#[trigger] columns@[t]).data_type
                        == gks[t].return_type,
                forall|t: int|
                    0 <= t < gks.len() ==> (#[trigger] columns@[t]).values@ == Seq::new(
                        state_entries.key_seq().len(),
                        |i: int| state_entries.key_seq()[i][t],
                    ),
                forall|t: int|
                    0 <= t < j ==> (#[trigger] columns@[gks.len() + t]).data_type
                        == aggs[t].return_type,
                forall|t: int|
                    0 <= t < j ==> (#[trigger] columns@[gks.len() + t]).values@ == Seq::new(
                        state_entries.key_seq().len(),
                        |i: int| agg_output(state_entries.states_seq()[i][t]),
                    ),
            decreases aggs.len() - j,
        {
            let mut b = ArrayBuilderImpl::new(&agg_calls[j].return_type);
            let mut i: usize = 0;
            while i < n
                invariant
                    i <= n,
                    j < aggs.len(),
                    b.data_type == aggs[j as int].return_type,
                    b.values@.len() == i,
                    forall|t: int|
                        0 <= t < i ==> b.values@[t] == agg_output(
                            state_entries.states_seq()[t][j as int],
                        ),
                decreases n - i,
            {
                let s = state_entries.state_at(i, j);
                let v = s.output();
                b.push(&v);
                i = i + 1;
            }
            proof {
                assert(b.values@ =~= Seq::new(
                    state_entries.key_seq().len(),
                    |i: int| agg_output(state_entries.states_seq()[i][j as int]),
                ));
            }
            columns.push(b.finish());
            j = j + 1;
        }

        proof {
            assert forall|t: int|
                0 <= t < columns@.len() implies (#[trigger] columns@[t]).values@.len()
                == state_entries.key_seq().len() by {
                if t < gks.len() {
                    assert(columns@[t].values@ == Seq::new(
                        state_entries.key_seq().len(),
                        |i: int| state_entries.key_seq()[i][t],
                    ));
                } else {
                    let u = t - gks.len();
                    assert(columns@[gks.len() + u].values@ == Seq::new(
                        state_entries.key_seq().len(),
                        |i: int| agg_output(state_entries.states_seq()[i][u]),
                    ));
                    assert(gks.len() + u == t);
                }
            }
        }
        let out = DataChunk::new(columns);
        out
    }

    /// Run the operator: consume every upstream batch, then emit the one
    /// output batch — or the first failure, in which case nothing is emitted.
    #[verifier::loop_isolation(false)]
    pub fn execute(self) -> (r: Result<DataChunk, ExecutorError>)
        requires
            self.inputs_wf(),
            self.calls_wf(),
        ensures
            match r {
                Ok(out) => {
                    let gks = self.group_keys@;
                    let aggs = self.agg_calls@;
                    let res = process_chunks(
                        Map::<Seq<DataValue>, Seq<crate::aggregation::AggregationState>>::empty(),
                        self.child@,
                        gks,
                        aggs,
                    );
                    let rows = flat_rows(ok_chunks(self.child@), gks, aggs);
                    let ks = keys_in_order(rows);
                    &&& res is Ok
                    &&& out.well_formed()
                    &&& out.arrays@.len() == gks.len() + aggs.len()
                    &&& gks.len() + aggs.len() > 0 ==> out.spec_cardinality() == ks.len()
                    &&& forall|j: int|
                        0 <= j < gks.len() ==> (#[trigger] out.arrays@[j]).data_type
                            == gks[j].return_type && out.arrays@[j].values@ == Seq::new(
                            ks.len(),
                            |i: int| ks[i][j],
                        )
                    &&& forall|j: int|
                        0 <= j < aggs.len() ==> (#[trigger] out.arrays@[gks.len() + j]).data_type
                            == aggs[j].return_type && out.arrays@[gks.len() + j].values@
                            == Seq::new(
                            ks.len(),
                            |i: int| agg_output(res->Ok_0[ks[i]][j]),
                        )
                },
                Err(e) => process_chunks(
                    Map::<Seq<DataValue>, Seq<crate::aggregation::AggregationState>>::empty(),
                    self.child@,
                    self.group_keys@,
                    self.agg_calls@,
                ) == Err::<GroupMap, ExecutorError>(e),
            },
    {
        let HashAggExecutor { agg_calls, group_keys, mut child } = self;
        let ghost inputs = child@;
        let ghost gks = group_keys@;
        let ghost aggs = agg_calls@;
        let ghost empty_map =
            Map::<Seq<DataValue>, Seq<crate::aggregation::AggregationState>>::empty();

        let mut state_entries = StateEntries::new();
        let ghost mut c: int = 0;
        while child.len() > 0
            invariant
                0 <= c <= inputs.len(),
                child@ == inputs.skip(c),
                state_entries.wf(),
                process_chunks(empty_map, inputs.take(c), gks, aggs) == Ok::<
                    GroupMap,
                    ExecutorError,
                >(state_entries.as_map()),
                state_entries.key_seq() == keys_in_order(
                    flat_rows(ok_chunks(inputs.take(c)), gks, aggs),
                ),
                forall|i: int|
                    0 <= i < state_entries.key_seq().len() ==> (#[trigger] state_entries.key_seq()[
                        i
                    ]).len() == gks.len(),
                forall|i: int|
                    0 <= i < state_entries.key_seq().len() ==> (#[trigger] state_entries.states_seq()[
                        i
                    ]).len() == aggs.len(),
            decreases child@.len(),
        {
            let item = child.remove(0);
            proof {
                assert(inputs.skip(c)[0] == inputs[c]);
                assert(inputs.skip(c).remove(0) =~= inputs.skip(c + 1));
                assert(inputs.take(c).push(inputs[c]) =~= inputs.take(c + 1));
                lemma_process_chunks_push(empty_map, inputs.take(c), inputs[c], gks, aggs);
            }
            match item {
                Ok(chunk) => {
                    let res = Self::execute_inner(
                        &mut state_entries,
                        chunk,
                        &agg_calls,
                        &group_keys,
                    );
                    match res {
                        Ok(()) => {
                            proof {
                                assert(ok_chunks(inputs.take(c + 1)) =~= ok_chunks(
                                    inputs.take(c),
                                ).push(chunk));
                                lemma_flat_rows_push(
                                    ok_chunks(inputs.take(c)),
                                    chunk,
                                    gks,
                                    aggs,
                                );
                                lemma_extend_keys_append(
                                    Seq::<Seq<DataValue>>::empty(),
                                    flat_rows(ok_chunks(inputs.take(c)), gks, aggs),
                                    chunk_rows(chunk, gks, aggs),
                                );
                                c = c + 1;
                            }
                        },
                        Err(e) => {
                            proof {
                                assert(process_chunks(empty_map, inputs.take(c + 1), gks, aggs)
                                    == Err::<GroupMap, ExecutorError>(e));
                                lemma_process_chunks_prefix_err(
                                    empty_map,
                                    inputs,
                                    c + 1,
                                    gks,
                                    aggs,
                                );
                            }
                            return Err(e);
                        },
                    }
                },
                Err(e) => {
                    proof {
                        lemma_process_chunks_prefix_err(empty_map, inputs, c + 1, gks, aggs);
                    }
                    return Err(e);
                },
            }
        }
        proof {
            assert(inputs.take(c) =~= inputs);
        }
        let ghost m = state_entries.as_map();
        let ghost ks = state_entries.key_seq();
        proof {
            assert forall|i: int| 0 <= i < ks.len() implies m[ks[i]]
                == state_entries.states_seq()[i] by {
                state_entries.lemma_entry(i);
            }
        }
        let out = Self::finish_agg(state_entries, agg_calls, group_keys);
        proof {
            assert forall|j: int| 0 <= j < aggs.len() implies (#[trigger] out.arrays@[gks.len()
                + j]).values@ == Seq::new(ks.len(), |i: int| agg_output(m[ks[i]][j])) by {
                assert(out.arrays@[gks.len() + j].values@ =~= Seq::new(
                    ks.len(),
                    |i: int| agg_output(m[ks[i]][j]),
                ));
            }
        }
        Ok(out)
    }
}

} // verus!
