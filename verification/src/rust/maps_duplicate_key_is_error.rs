//! Ensure no duplicate keys exist in a map: a key equal to an earlier one is
//! an error.

use crate::duplicate_key_impls::{
    deserialize_map, entries_map, first_repeat, keys_of, DuplicateEntry,
    PreventDuplicateInsertsMap,
};
use vstd::prelude::*;

verus! {

/// A map of the entries, failing at the first key equal to an earlier one.
pub fn deserialize<T, K, V>(entries: Vec<(K, V)>) -> (r: Result<T, DuplicateEntry>) where
    T: PreventDuplicateInsertsMap<K, V>,

    ensures
        T::follows_model() ==> match r {
            Ok(map) => first_repeat(keys_of(entries@)) == entries@.len() && map.map_view()
                == entries_map(entries@),
            Err(e) => first_repeat(keys_of(entries@)) < entries@.len() && e.index == first_repeat(
                keys_of(entries@),
            ),
        },
{
    deserialize_map(entries)
}

} // verus!
