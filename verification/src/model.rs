//! The mathematical model of the operator: what the state store holds after
//! any prefix of the input, row by row, and in which order groups appear.
//!
//! A row is reduced to the pair of its group-key tuple and its one argument
//! scalar per aggregate call; the store is modelled as a map from key tuple
//! to state vector. Every contract of the executor speaks over this model.

use vstd::prelude::*;
use crate::aggregation::{init_states, BoundAggCall};
use crate::array::DataChunk;
use crate::expr::BoundExpr;
use crate::store::update_states;
use crate::value::{DataValue, ExecutorError};

verus! {

/// The store's logical content: group key tuple to aggregation states.
pub type GroupMap = Map<Seq<DataValue>, Seq<crate::aggregation::AggregationState>>;

/// One input row, reduced to what aggregation reads: its key tuple and one
/// argument scalar per aggregate call.
pub type RowModel = (Seq<DataValue>, Seq<DataValue>);

/// Consuming one row: look the key up (a fresh state vector for a key never
/// seen), then feed the row's argument scalars to the group's states.
pub open spec fn row_step(m: GroupMap, row: RowModel, agg_calls: Seq<BoundAggCall>) -> Result<
    GroupMap,
    ExecutorError,
> {
    let states = if m.dom().contains(row.0) {
        m[row.0]
    } else {
        init_states(agg_calls)
    };
    match update_states(states, row.1) {
        Ok(s2) => Ok(m.insert(row.0, s2)),
        Err(e) => Err(e),
    }
}

/// Consuming a sequence of rows, first row first; the first failing update
/// aborts with its error.
pub open spec fn run_rows(m: GroupMap, rows: Seq<RowModel>, agg_calls: Seq<BoundAggCall>) -> Result<
    GroupMap,
    ExecutorError,
>
    decreases rows.len(),
{
    if rows.len() == 0 {
        Ok(m)
    } else {
        match row_step(m, rows[0], agg_calls) {
            Ok(m2) => run_rows(m2, rows.drop_first(), agg_calls),
            Err(e) => Err(e),
        }
    }
}

/// The distinct keys of `rows` in first-seen order, appended to the distinct
/// keys `ks` already seen.
pub open spec fn extend_keys(ks: Seq<Seq<DataValue>>, rows: Seq<RowModel>) -> Seq<Seq<DataValue>>
    decreases rows.len(),
{
    if rows.len() == 0 {
        ks
    } else {
        let prev = extend_keys(ks, rows.drop_last());
        if prev.contains(rows.last().0) {
            prev
        } else {
            prev.push(rows.last().0)
        }
    }
}

/// The distinct keys of `rows`, in first-seen order.
pub open spec fn keys_in_order(rows: Seq<RowModel>) -> Seq<Seq<DataValue>> {
    extend_keys(Seq::<Seq<DataValue>>::empty(), rows)
}

/// The key tuple of row `i` of a batch: one scalar per group-by expression.
pub open spec fn chunk_key_of_row(
    chunk: DataChunk,
    group_keys: Seq<BoundExpr>,
    i: int,
) -> Seq<DataValue> {
    Seq::new(group_keys.len(), |j: int| chunk.arrays@[group_keys[j].index as int].values@[i])
}

/// The argument scalars of row `i`: one per aggregate call.
pub open spec fn chunk_args_of_row(
    chunk: DataChunk,
    agg_calls: Seq<BoundAggCall>,
    i: int,
) -> Seq<DataValue> {
    Seq::new(agg_calls.len(), |j: int| chunk.arrays@[agg_calls[j].args@[0].index as int].values@[i])
}

/// A whole batch, reduced row by row.
pub open spec fn chunk_rows(
    chunk: DataChunk,
    group_keys: Seq<BoundExpr>,
    agg_calls: Seq<BoundAggCall>,
) -> Seq<RowModel> {
    Seq::new(
        chunk.spec_cardinality(),
        |i: int| (chunk_key_of_row(chunk, group_keys, i), chunk_args_of_row(chunk, agg_calls, i)),
    )
}

/// Every group-by and aggregate-argument expression evaluates on the batch.
pub open spec fn evals_ok(
    chunk: DataChunk,
    group_keys: Seq<BoundExpr>,
    agg_calls: Seq<BoundAggCall>,
) -> bool {
    &&& forall|j: int| 0 <= j < group_keys.len() ==> (#[trigger] group_keys[j]).eval_ok(chunk)
    &&& forall|j: int|
        0 <= j < agg_calls.len() ==> (#[trigger] agg_calls[j]).args@[0].eval_ok(chunk)
}

/// Consuming the whole upstream sequence, batch by batch: an upstream error
/// is propagated verbatim, an expression that does not evaluate aborts, and
/// otherwise the batch's rows are consumed in row order.
pub open spec fn process_chunks(
    m: GroupMap,
    inputs: Seq<Result<DataChunk, ExecutorError>>,
    group_keys: Seq<BoundExpr>,
    agg_calls: Seq<BoundAggCall>,
) -> Result<GroupMap, ExecutorError>
    decreases inputs.len(),
{
    if inputs.len() == 0 {
        Ok(m)
    } else {
        match inputs[0] {
            Ok(chunk) => if !evals_ok(chunk, group_keys, agg_calls) {
                Err(ExecutorError::ColumnOutOfRange)
            } else {
                match run_rows(m, chunk_rows(chunk, group_keys, agg_calls), agg_calls) {
                    Ok(m2) => process_chunks(m2, inputs.drop_first(), group_keys, agg_calls),
                    Err(e) => Err(e),
                }
            },
            Err(e) => Err(e),
        }
    }
}

/// The batches of an all-successful upstream sequence.
pub open spec fn ok_chunks(inputs: Seq<Result<DataChunk, ExecutorError>>) -> Seq<DataChunk> {
    inputs.map_values(|r: Result<DataChunk, ExecutorError>| r->Ok_0)
}

/// All rows of a batch sequence, flattened in batch order.
pub open spec fn flat_rows(
    chunks: Seq<DataChunk>,
    group_keys: Seq<BoundExpr>,
    agg_calls: Seq<BoundAggCall>,
) -> Seq<RowModel>
    decreases chunks.len(),
{
    if chunks.len() == 0 {
        Seq::<RowModel>::empty()
    } else {
        chunk_rows(chunks[0], group_keys, agg_calls) + flat_rows(
            chunks.drop_first(),
            group_keys,
            agg_calls,
        )
    }
}

/// Appending one row on the right runs it as one further step.
pub proof fn lemma_run_rows_push(
    m: GroupMap,
    rows: Seq<RowModel>,
    row: RowModel,
    agg_calls: Seq<BoundAggCall>,
)
    ensures
        run_rows(m, rows, agg_calls) matches Ok(m2) ==> run_rows(m, rows.push(row), agg_calls)
            == row_step(m2, row, agg_calls),
        run_rows(m, rows, agg_calls) matches Err(e) ==> run_rows(m, rows.push(row), agg_calls)
            == Err::<GroupMap, ExecutorError>(e),
    decreases rows.len(),
{
    if rows.len() == 0 {
        assert(rows.push(row)[0] == row);
        assert(rows.push(row).drop_first() =~= Seq::<RowModel>::empty());
        match row_step(m, row, agg_calls) {
            Ok(m2) => {
                assert(run_rows(m2, Seq::<RowModel>::empty(), agg_calls) == Ok::<
                    GroupMap,
                    ExecutorError,
                >(m2));
            },
            Err(e) => {},
        }
    } else {
        assert(rows.push(row)[0] == rows[0]);
        assert(rows.push(row).drop_first() =~= rows.drop_first().push(row));
        match row_step(m, rows[0], agg_calls) {
            Ok(m2) => {
                lemma_run_rows_push(m2, rows.drop_first(), row, agg_calls);
            },
            Err(e) => {},
        }
    }
}

/// Running a concatenation is running the two parts in turn.
pub proof fn lemma_run_rows_append(
    m: GroupMap,
    r1: Seq<RowModel>,
    r2: Seq<RowModel>,
    agg_calls: Seq<BoundAggCall>,
)
    ensures
        run_rows(m, r1, agg_calls) matches Ok(m2) ==> run_rows(m, r1 + r2, agg_calls) == run_rows(
            m2,
            r2,
            agg_calls,
        ),
        run_rows(m, r1, agg_calls) matches Err(e) ==> run_rows(m, r1 + r2, agg_calls) == Err::<
            GroupMap,
            ExecutorError,
        >(e),
    decreases r1.len(),
{
    if r1.len() == 0 {
        assert(r1 + r2 =~= r2);
    } else {
        assert((r1 + r2)[0] == r1[0]);
        assert((r1 + r2).drop_first() =~= r1.drop_first() + r2);
        match row_step(m, r1[0], agg_calls) {
            Ok(m2) => {
                lemma_run_rows_append(m2, r1.drop_first(), r2, agg_calls);
            },
            Err(e) => {},
        }
    }
}

/// A run that fails on a prefix of the rows fails on the whole, unchanged.
pub proof fn lemma_run_rows_prefix_err(
    m: GroupMap,
    rows: Seq<RowModel>,
    j: int,
    agg_calls: Seq<BoundAggCall>,
)
    requires
        0 <= j <= rows.len(),
        run_rows(m, rows.take(j), agg_calls) is Err,
    ensures
        run_rows(m, rows, agg_calls) == run_rows(m, rows.take(j), agg_calls),
    decreases j,
{
    if j == 0 {
        assert(rows.take(0) =~= Seq::<RowModel>::empty());
        assert(false);
    } else {
        assert(rows.take(j)[0] == rows[0]);
        assert(rows.take(j).drop_first() =~= rows.drop_first().take(j - 1));
        match row_step(m, rows[0], agg_calls) {
            Ok(m2) => {
                lemma_run_rows_prefix_err(m2, rows.drop_first(), j - 1, agg_calls);
            },
            Err(e) => {},
        }
    }
}

/// First-seen key order distributes over concatenation.
pub proof fn lemma_extend_keys_append(
    ks: Seq<Seq<DataValue>>,
    r1: Seq<RowModel>,
    r2: Seq<RowModel>,
)
    ensures
        extend_keys(ks, r1 + r2) == extend_keys(extend_keys(ks, r1), r2),
    decreases r2.len(),
{
    if r2.len() == 0 {
        assert(r1 + r2 =~= r1);
    } else {
        assert((r1 + r2).drop_last() =~= r1 + r2.drop_last());
        assert((r1 + r2).last() == r2.last());
        lemma_extend_keys_append(ks, r1, r2.drop_last());
    }
}

/// Appending one batch on the right appends its rows on the right.
pub proof fn lemma_flat_rows_push(
    chunks: Seq<DataChunk>,
    chunk: DataChunk,
    group_keys: Seq<BoundExpr>,
    agg_calls: Seq<BoundAggCall>,
)
    ensures
        flat_rows(chunks.push(chunk), group_keys, agg_calls) == flat_rows(
            chunks,
            group_keys,
            agg_calls,
        ) + chunk_rows(chunk, group_keys, agg_calls),
    decreases chunks.len(),
{
    if chunks.len() == 0 {
        assert(chunks.push(chunk)[0] == chunk);
        assert(chunks.push(chunk).drop_first() =~= Seq::<DataChunk>::empty());
        assert(flat_rows(Seq::<DataChunk>::empty(), group_keys, agg_calls) == Seq::<
            RowModel,
        >::empty());
        assert(chunk_rows(chunk, group_keys, agg_calls) + Seq::<RowModel>::empty() =~= Seq::<
            RowModel,
        >::empty() + chunk_rows(chunk, group_keys, agg_calls));
    } else {
        assert(chunks.push(chunk)[0] == chunks[0]);
        assert(chunks.push(chunk).drop_first() =~= chunks.drop_first().push(chunk));
        lemma_flat_rows_push(chunks.drop_first(), chunk, group_keys, agg_calls);
        assert(chunk_rows(chunks[0], group_keys, agg_calls) + (flat_rows(
            chunks.drop_first(),
            group_keys,
            agg_calls,
        ) + chunk_rows(chunk, group_keys, agg_calls)) =~= (chunk_rows(
            chunks[0],
            group_keys,
            agg_calls,
        ) + flat_rows(chunks.drop_first(), group_keys, agg_calls)) + chunk_rows(
            chunk,
            group_keys,
            agg_calls,
        ));
    }
}

/// Appending one upstream item on the right processes it as one last batch.
pub proof fn lemma_process_chunks_push(
    m: GroupMap,
    inputs: Seq<Result<DataChunk, ExecutorError>>,
    item: Result<DataChunk, ExecutorError>,
    group_keys: Seq<BoundExpr>,
    agg_calls: Seq<BoundAggCall>,
)
    ensures
        process_chunks(m, inputs, group_keys, agg_calls) matches Ok(m2) ==> process_chunks(
            m,
            inputs.push(item),
            group_keys,
            agg_calls,
        ) == (match item {
            Ok(chunk) => if !evals_ok(chunk, group_keys, agg_calls) {
                Err::<GroupMap, ExecutorError>(ExecutorError::ColumnOutOfRange)
            } else {
                run_rows(m2, chunk_rows(chunk, group_keys, agg_calls), agg_calls)
            },
            Err(e) => Err::<GroupMap, ExecutorError>(e),
        }),
        process_chunks(m, inputs, group_keys, agg_calls) matches Err(e) ==> process_chunks(
            m,
            inputs.push(item),
            group_keys,
            agg_calls,
        ) == Err::<GroupMap, ExecutorError>(e),
    decreases inputs.len(),
{
    if inputs.len() == 0 {
        assert(inputs.push(item)[0] == item);
        assert(inputs.push(item).drop_first() =~= Seq::<Result<DataChunk, ExecutorError>>::empty());
        match item {
            Ok(chunk) => {
                if evals_ok(chunk, group_keys, agg_calls) {
                    match run_rows(m, chunk_rows(chunk, group_keys, agg_calls), agg_calls) {
                        Ok(m2) => {
                            assert(process_chunks(
                                m2,
                                Seq::<Result<DataChunk, ExecutorError>>::empty(),
                                group_keys,
                                agg_calls,
                            ) == Ok::<GroupMap, ExecutorError>(m2));
                        },
                        Err(e) => {},
                    }
                }
            },
            Err(e) => {},
        }
    } else {
        assert(inputs.push(item)[0] == inputs[0]);
        assert(inputs.push(item).drop_first() =~= inputs.drop_first().push(item));
        match inputs[0] {
            Ok(chunk) => {
                if evals_ok(chunk, group_keys, agg_calls) {
                    match run_rows(m, chunk_rows(chunk, group_keys, agg_calls), agg_calls) {
                        Ok(m2) => {
                            lemma_process_chunks_push(
                                m2,
                                inputs.drop_first(),
                                item,
                                group_keys,
                                agg_calls,
                            );
                        },
                        Err(e) => {},
                    }
                }
            },
            Err(e) => {},
        }
    }
}

/// Processing that fails on a prefix of the input fails on the whole.
pub proof fn lemma_process_chunks_prefix_err(
    m: GroupMap,
    inputs: Seq<Result<DataChunk, ExecutorError>>,
    j: int,
    group_keys: Seq<BoundExpr>,
    agg_calls: Seq<BoundAggCall>,
)
    requires
        0 <= j <= inputs.len(),
        process_chunks(m, inputs.take(j), group_keys, agg_calls) is Err,
    ensures
        process_chunks(m, inputs, group_keys, agg_calls) == process_chunks(
            m,
            inputs.take(j),
            group_keys,
            agg_calls,
        ),
    decreases j,
{
    if j == 0 {
        assert(inputs.take(0) =~= Seq::<Result<DataChunk, ExecutorError>>::empty());
        assert(false);
    } else {
        assert(inputs.take(j)[0] == inputs[0]);
        assert(inputs.take(j).drop_first() =~= inputs.drop_first().take(j - 1));
        match inputs[0] {
            Ok(chunk) => {
                if evals_ok(chunk, group_keys, agg_calls) {
                    match run_rows(m, chunk_rows(chunk, group_keys, agg_calls), agg_calls) {
                        Ok(m2) => {
                            lemma_process_chunks_prefix_err(
                                m2,
                                inputs.drop_first(),
                                j - 1,
                                group_keys,
                                agg_calls,
                            );
                        },
                        Err(e) => {},
                    }
                }
            },
            Err(e) => {},
        }
    }
}

} // verus!
