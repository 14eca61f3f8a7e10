//! Keep the first entry of a key when the key occurs again in a map.

use crate::duplicate_key_impls::{
    deserialize_map_first_wins, entries_map_first_wins, DuplicateInsertsFirstWinsMap,
};
use vstd::prelude::*;

verus! {

/// A map of the entries, the first entry of each key kept.
pub fn deserialize<T, K, V>(entries: Vec<(K, V)>) -> (map: T) where
    T: DuplicateInsertsFirstWinsMap<K, V>,

    ensures
        T::follows_model() ==> map.map_view() == entries_map_first_wins(entries@),
{
    deserialize_map_first_wins(entries)
}

} // verus!
