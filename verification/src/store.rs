//! The group-state store: one aggregation-state vector per distinct key.
//!
//! Logically a map from group key to state vector; held as two aligned
//! vectors with a key-uniqueness invariant, looked up by key equality. The
//! entry order is the order in which keys were first seen, which also fixes
//! the (otherwise unspecified) row order of the output batch.

use vstd::prelude::*;
use crate::aggregation::{agg_step, AggregationState};
use crate::group_key::{key_eq, key_get, key_values, HashKey};
use crate::value::{DataValue, ExecutorError};

verus! {

/// The states of one group, one per aggregate call, in call order.
pub type HashValue = Vec<AggregationState>;

/// What feeding one row's argument scalars to a group's state vector
/// yields: the successor states, or the first failing update's error.
pub open spec fn update_states(states: Seq<AggregationState>, args: Seq<DataValue>) -> Result<
    Seq<AggregationState>,
    ExecutorError,
>
    decreases states.len(),
{
    if states.len() == 0 {
        Ok(Seq::<AggregationState>::empty())
    } else {
        match agg_step(states[0], args[0]) {
            Ok(s2) => match update_states(states.drop_first(), args.drop_first()) {
                Ok(rest) => Ok(seq![s2] + rest),
                Err(e) => Err(e),
            },
            Err(e) => Err(e),
        }
    }
}

/// Appending one state/argument pair on the right extends a successful run
/// by one step and keeps a failed run failed.
pub proof fn lemma_update_states_push(
    states: Seq<AggregationState>,
    args: Seq<DataValue>,
    x: AggregationState,
    y: DataValue,
)
    requires
        args.len() == states.len(),
    ensures
        update_states(states, args) matches Ok(pre) ==> (agg_step(x, y) matches Ok(x2)
            ==> update_states(states.push(x), args.push(y)) == Ok::<
            Seq<AggregationState>,
            ExecutorError,
        >(pre.push(x2))),
        update_states(states, args) is Ok ==> (agg_step(x, y) matches Err(e) ==> update_states(
            states.push(x),
            args.push(y),
        ) == Err::<Seq<AggregationState>, ExecutorError>(e)),
        update_states(states, args) matches Err(e) ==> update_states(states.push(x), args.push(y))
            == Err::<Seq<AggregationState>, ExecutorError>(e),
    decreases states.len(),
{
    if states.len() == 0 {
        assert(states.push(x)[0] == x);
        assert(args.push(y)[0] == y);
        assert(states.push(x).drop_first() =~= Seq::<AggregationState>::empty());
        assert(args.push(y).drop_first() =~= Seq::<DataValue>::empty());
        assert(update_states(Seq::<AggregationState>::empty(), Seq::<DataValue>::empty())
            == Ok::<Seq<AggregationState>, ExecutorError>(Seq::<AggregationState>::empty()));
        match agg_step(x, y) {
            Ok(x2) => {
                assert(seq![x2] + Seq::<AggregationState>::empty() =~= Seq::<
                    AggregationState,
                >::empty().push(x2));
            },
            Err(e) => {},
        }
    } else {
        assert(states.push(x)[0] == states[0]);
        assert(args.push(y)[0] == args[0]);
        assert(states.push(x).drop_first() =~= states.drop_first().push(x));
        assert(args.push(y).drop_first() =~= args.drop_first().push(y));
        lemma_update_states_push(states.drop_first(), args.drop_first(), x, y);
        match agg_step(states[0], args[0]) {
            Ok(s2) => {
                match update_states(states.drop_first(), args.drop_first()) {
                    Ok(prerest) => {
                        match agg_step(x, y) {
                            Ok(x2) => {
                                assert(seq![s2] + prerest.push(x2) =~= (seq![s2]
                                    + prerest).push(x2));
                            },
                            Err(e) => {},
                        }
                    },
                    Err(e) => {},
                }
            },
            Err(e) => {},
        }
    }
}

/// A successful run yields one successor state per state fed.
pub proof fn lemma_update_states_len(states: Seq<AggregationState>, args: Seq<DataValue>)
    requires
        update_states(states, args) is Ok,
    ensures
        update_states(states, args)->Ok_0.len() == states.len(),
    decreases states.len(),
{
    if states.len() == 0 {
    } else {
        match agg_step(states[0], args[0]) {
            Ok(s2) => {
                lemma_update_states_len(states.drop_first(), args.drop_first());
            },
            Err(e) => {},
        }
    }
}

/// A run that fails on a prefix fails on the whole, with the same error.
pub proof fn lemma_update_states_prefix_err(
    states: Seq<AggregationState>,
    args: Seq<DataValue>,
    j: int,
)
    requires
        args.len() == states.len(),
        0 <= j <= states.len(),
        update_states(states.take(j), args.take(j)) is Err,
    ensures
        update_states(states, args) == update_states(states.take(j), args.take(j)),
    decreases j,
{
    if j == 0 {
        assert(states.take(0) =~= Seq::<AggregationState>::empty());
        assert(false);
    } else {
        assert(states.take(j)[0] == states[0]);
        assert(args.take(j)[0] == args[0]);
        assert(states.take(j).drop_first() =~= states.drop_first().take(j - 1));
        assert(args.take(j).drop_first() =~= args.drop_first().take(j - 1));
        match agg_step(states[0], args[0]) {
            Ok(s2) => {
                lemma_update_states_prefix_err(states.drop_first(), args.drop_first(), j - 1);
            },
            Err(e) => {},
        }
    }
}

/// The store owning all live per-group state.
pub struct StateEntries {
    keys: Vec<HashKey>,
    states: Vec<HashValue>,
}

impl StateEntries {
    /// The group keys, in first-seen order.
    pub closed spec fn key_seq(self) -> Seq<Seq<DataValue>> {
        self.keys@.map_values(|k: HashKey| key_values(k))
    }

    /// The state vectors, aligned with `key_seq`.
    pub closed spec fn states_seq(self) -> Seq<Seq<AggregationState>> {
        self.states@.map_values(|v: HashValue| v@)
    }

    /// Keys and states aligned, keys pairwise distinct.
    pub closed spec fn wf(self) -> bool {
        &&& self.keys@.len() == self.states@.len()
        &&& forall|i: int, j: int|
            0 <= i < j < self.keys@.len() ==> #[trigger] self.key_seq()[i]
                != #[trigger] self.key_seq()[j]
    }

    /// The entry index of a key present in the store.
    pub closed spec fn key_index(self, k: Seq<DataValue>) -> int {
        choose|i: int| 0 <= i < self.key_seq().len() && self.key_seq()[i] == k
    }

    /// The store as the map it stands for.
    pub closed spec fn as_map(self) -> Map<Seq<DataValue>, Seq<AggregationState>> {
        Map::new(
            |k: Seq<DataValue>| self.key_seq().contains(k),
            |k: Seq<DataValue>| self.states_seq()[self.key_index(k)],
        )
    }

    /// Aligned lengths: one state vector per stored key.
    pub proof fn lemma_len(self)
        requires
            self.wf(),
        ensures
            self.states_seq().len() == self.key_seq().len(),
    {
    }

    /// The map's domain is exactly the set of stored keys.
    pub proof fn lemma_dom(self)
        ensures
            self.as_map().dom() == self.key_seq().to_set(),
    {
        assert(self.as_map().dom() =~= self.key_seq().to_set());
    }

    /// In a well-formed store, entry `i` is the map entry of its key.
    pub proof fn lemma_entry(self, i: int)
        requires
            self.wf(),
            0 <= i < self.key_seq().len(),
        ensures
            self.as_map().dom().contains(self.key_seq()[i]),
            self.as_map()[self.key_seq()[i]] == self.states_seq()[i],
    {
        let k = self.key_seq()[i];
        assert(self.key_seq().contains(k));
        let j = self.key_index(k);
        assert(self.key_seq()[j] == k);
        if i != j {
            assert(false);
        }
    }

    /// A store with no groups.
    pub fn new() -> (s: StateEntries)
        ensures
            s.wf(),
            s.key_seq() == Seq::<Seq<DataValue>>::empty(),
            s.states_seq() == Seq::<Seq<AggregationState>>::empty(),
            s.as_map() == Map::<Seq<DataValue>, Seq<AggregationState>>::empty(),
    {
        let s = StateEntries { keys: Vec::new(), states: Vec::new() };
        proof {
            assert(s.key_seq() =~= Seq::<Seq<DataValue>>::empty());
            assert(s.states_seq() =~= Seq::<Seq<AggregationState>>::empty());
            assert(s.as_map() =~= Map::<Seq<DataValue>, Seq<AggregationState>>::empty());
        }
        s
    }

    /// Number of distinct groups seen so far.
    pub fn group_count(&self) -> (n: usize)
        ensures
            n == self.key_seq().len(),
    {
        self.keys.len()
    }

    /// One scalar of one stored key.
    pub fn key_component(&self, i: usize, j: usize) -> (v: DataValue)
        requires
            i < self.key_seq().len(),
            j < self.key_seq()[i as int].len(),
        ensures
            v == self.key_seq()[i as int][j as int],
    {
        key_get(&self.keys[i], j)
    }

    /// One group's state for one aggregate call.
    pub fn state_at(&self, i: usize, j: usize) -> (s: AggregationState)
        requires
            self.wf(),
            i < self.key_seq().len(),
            j < self.states_seq()[i as int].len(),
        ensures
            s == self.states_seq()[i as int][j as int],
    {
        self.states[i][j]
    }

    /// The entry index of `key`, or `None` when the key was never seen.
    pub fn find(&self, key: &HashKey) -> (r: Option<usize>)
        ensures
            match r {
                Some(i) => i < self.key_seq().len() && self.key_seq()[i as int] == key_values(
                    *key,
                ) && self.key_seq().contains(key_values(*key)),
                None => !self.key_seq().contains(key_values(*key)),
            },
    {
        let mut i: usize = 0;
        while i < self.keys.len()
            invariant
                i <= self.keys@.len(),
                forall|m: int| 0 <= m < i ==> self.key_seq()[m] != key_values(*key),
            decreases self.keys@.len() - i,
        {
            if key_eq(&self.keys[i], key) {
                return Some(i);
            }
            i = i + 1;
        }
        None
    }

    /// Insert a key seen for the first time, with its fresh state vector.
    pub fn insert_new(&mut self, key: HashKey, value: HashValue)
        requires
            old(self).wf(),
            !old(self).key_seq().contains(key_values(key)),
        ensures
            final(self).wf(),
            final(self).key_seq() == old(self).key_seq().push(key_values(key)),
            final(self).states_seq() == old(self).states_seq().push(value@),
            final(self).as_map() == old(self).as_map().insert(key_values(key), value@),
    {
        let ghost kv = key_values(key);
        let ghost old_self = *self;
        let ghost v = value@;
        self.keys.push(key);
        self.states.push(value);
        proof {
            assert(self.key_seq() =~= old_self.key_seq().push(kv));
            assert(self.states_seq() =~= old_self.states_seq().push(v));
            assert forall|q: Seq<DataValue>|
                self.key_seq().contains(q) implies self.as_map()[q] == old_self.as_map().insert(
                kv,
                v,
            )[q] by {
                let m = self.key_index(q);
                assert(self.key_seq()[m] == q);
                if q == kv {
                    if m != old_self.key_seq().len() {
                        assert(old_self.key_seq()[m] == q);
                        assert(false);
                    }
                    assert(self.as_map()[q] == v);
                } else {
                    assert(m < old_self.key_seq().len());
                    assert(old_self.key_seq()[m] == q);
                    assert(old_self.key_seq().contains(q));
                    old_self.lemma_entry(m);
                    self.lemma_entry(m);
                }
            }
            assert forall|q: Seq<DataValue>|
                old_self.as_map().insert(kv, v).dom().contains(
                    q,
                ) implies self.key_seq().contains(q) by {
                if q == kv {
                    assert(self.key_seq()[old_self.key_seq().len() as int] == q);
                } else {
                    let m = old_self.key_index(q);
                    assert(old_self.key_seq()[m] == q);
                    assert(self.key_seq()[m] == q);
                }
            }
            assert(self.as_map() =~= old_self.as_map().insert(kv, v));
        }
    }

    /// Feed one row's argument scalars to group `i`'s states, call by call.
    ///
    /// Commits only on full success; the first failing update aborts with
    /// its error and leaves the store as it was.
    pub fn update_row(&mut self, i: usize, row_args: &Vec<DataValue>) -> (r: Result<
        (),
        ExecutorError,
    >)
        requires
            old(self).wf(),
            i < old(self).key_seq().len(),
            row_args@.len() == old(self).states_seq()[i as int].len(),
        ensures
            final(self).wf(),
            final(self).key_seq() == old(self).key_seq(),
            match update_states(old(self).states_seq()[i as int], row_args@) {
                Ok(s2) => r == Ok::<(), ExecutorError>(()) && final(self).states_seq() == old(
                    self,
                ).states_seq().update(i as int, s2) && final(self).as_map() == old(
                    self,
                ).as_map().insert(old(self).key_seq()[i as int], s2),
                Err(e) => r == Err::<(), ExecutorError>(e) && *final(self) == *old(self),
            },
    {
        let ghost old_self = *self;
        let ghost full = old_self.states_seq()[i as int];
        let n = self.states[i].len();
        let mut updated: HashValue = Vec::new();
        let mut j: usize = 0;
        while j < n
            invariant
                *self == old_self,
                old_self.wf(),
                i < old_self.key_seq().len(),
                full == old_self.states_seq()[i as int],
                n == full.len(),
                row_args@.len() == n,
                j <= n,
                update_states(full.take(j as int), row_args@.take(j as int)) == Ok::<
                    Seq<AggregationState>,
                    ExecutorError,
                >(updated@),
            decreases n - j,
        {
            let mut s: AggregationState = self.states[i][j];
            let res = s.update_single(&row_args[j]);
            proof {
                lemma_update_states_push(
                    full.take(j as int),
                    row_args@.take(j as int),
                    full[j as int],
                    row_args@[j as int],
                );
                assert(full.take(j as int).push(full[j as int]) =~= full.take(j as int + 1));
                assert(row_args@.take(j as int).push(row_args@[j as int]) =~= row_args@.take(
                    j as int + 1,
                ));
            }
            match res {
                Ok(()) => {
                    updated.push(s);
                },
                Err(e) => {
                    proof {
                        lemma_update_states_prefix_err(full, row_args@, j as int + 1);
                    }
                    return Err(e);
                },
            }
            j = j + 1;
        }
        proof {
            assert(full.take(n as int) =~= full);
            assert(row_args@.take(n as int) =~= row_args@);
        }
        let ghost s2 = updated@;
        let slot = &mut self.states[i];
        *slot = updated;
        proof {
            assert(self.keys == old_self.keys);
            assert(self.key_seq() =~= old_self.key_seq());
            assert(self.states_seq() =~= old_self.states_seq().update(i as int, s2));
            let k = old_self.key_seq()[i as int];
            assert forall|q: Seq<DataValue>|
                self.key_seq().contains(q) implies self.as_map()[q] == old_self.as_map().insert(
                k,
                s2,
            )[q] by {
                let m = self.key_index(q);
                assert(self.key_seq()[m] == q);
                if q == k {
                    if m != i {
                        assert(old_self.key_seq()[m] == q);
                        assert(false);
                    }
                    assert(self.as_map()[q] == s2);
                } else {
                    assert(m != i);
                    assert(old_self.key_seq().contains(q));
                    old_self.lemma_entry(m);
                    self.lemma_entry(m);
                }
            }
            assert(self.as_map() =~= old_self.as_map().insert(k, s2));
        }
        Ok(())
    }
}

} // verus!
