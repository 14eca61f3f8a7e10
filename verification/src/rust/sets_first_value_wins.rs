//! Keep the first value when equal values occur in a set.

use crate::duplicate_key_impls::{deserialize_set_first_wins, DuplicateInsertsFirstWinsSet};
use vstd::prelude::*;

verus! {

/// A set of the values, the first of equal values kept.
pub fn deserialize<T, V>(values: Vec<V>) -> (set: T) where
    T: DuplicateInsertsFirstWinsSet<V>,

    ensures
        T::follows_model() ==> set.set_view() == values@.to_set(),
{
    deserialize_set_first_wins(values)
}

} // verus!
