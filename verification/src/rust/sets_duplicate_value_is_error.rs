//! Ensure no duplicate values exist in a set: a value equal to an earlier
//! one is an error.

use crate::duplicate_key_impls::{
    deserialize_set, first_repeat, DuplicateEntry, PreventDuplicateInsertsSet,
};
use vstd::prelude::*;

verus! {

/// A set of the values, failing at the first value equal to an earlier one.
pub fn deserialize<T, V>(values: Vec<V>) -> (r: Result<T, DuplicateEntry>) where
    T: PreventDuplicateInsertsSet<V>,

    ensures
        T::follows_model() ==> match r {
            Ok(set) => first_repeat(values@) == values@.len() && set.set_view() == values@.to_set(),
            Err(e) => first_repeat(values@) < values@.len() && e.index == first_repeat(values@),
        },
{
    deserialize_set(values)
}

} // verus!
