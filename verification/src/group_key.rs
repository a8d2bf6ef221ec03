//! The group key: the tuple of group-by values identifying one group.
//!
//! A key holds a `smallvec::SmallVec` of scalars, built once per input row
//! and immutable afterwards. The vector is opaque to the verifier, so the
//! key's contents are named by `key_values`, and the few operations the
//! operator needs are trusted wrappers whose contracts speak over that name.

use vstd::prelude::*;
use crate::value::DataValue;

verus! {

/// An ordered, fixed-length sequence of scalar values, one per group-by
/// expression, in group-by-expression order.
#[verifier::external_body]
pub struct HashKey {
    values: smallvec::SmallVec<[DataValue; 16]>,
}

/// The scalars a key holds, in order.
pub uninterp spec fn key_values(k: HashKey) -> Seq<DataValue>;

/// Relies on `smallvec::SmallVec::new`: constructs an empty vector.
#[verifier::external_body]
pub fn key_new() -> (k: HashKey)
    ensures
        key_values(k) == Seq::<DataValue>::empty(),
{
    HashKey { values: smallvec::SmallVec::new() }
}

/// Relies on `smallvec::SmallVec::push`: appends one element at the end.
#[verifier::external_body]
pub fn key_push(k: &mut HashKey, v: DataValue)
    ensures
        key_values(*final(k)) == key_values(*old(k)).push(v),
{
    k.values.push(v)
}

/// Relies on `smallvec::SmallVec::len`: the number of elements stored.
#[verifier::external_body]
pub fn key_len(k: &HashKey) -> (n: usize)
    ensures
        n == key_values(*k).len(),
{
    k.values.len()
}

/// Relies on `SmallVec`'s `Index<usize>` impl: hands out the element at `i`.
#[verifier::external_body]
pub fn key_get(k: &HashKey, i: usize) -> (v: DataValue)
    requires
        i < key_values(*k).len(),
    ensures
        v == key_values(*k)[i as int],
{
    k.values[i]
}

/// Relies on `SmallVec`'s `PartialEq` impl, which compares as slices,
/// element for element, through `DataValue`'s derived structural equality.
#[verifier::external_body]
pub fn key_eq(a: &HashKey, b: &HashKey) -> (r: bool)
    ensures
        r == (key_values(*a) == key_values(*b)),
{
    a.values == b.values
}

} // verus!
