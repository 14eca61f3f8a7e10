//! The choice for a field that may be given flattened into the enclosing map
//! or nested under its own key, but not both.

use vstd::prelude::*;

verus! {

/// Why neither or both forms of a field were given.
#[derive(Debug, Clone, Copy, PartialEq, Eq)]
pub enum FlattenedError {
    /// The field was given in neither form.
    Missing,
    /// The field was given both flattened and nested.
    Both,
}

/// The value of a field from its flattened form and its nested form: the one
/// that was given, an error when neither or both were.
pub fn flattened_or_nested<T>(flat: Option<T>, nested: Option<T>) -> (r: Result<T, FlattenedError>)
    ensures
        match (flat, nested) {
            (Some(t), None) => r == Ok::<T, FlattenedError>(t),
            (None, Some(t)) => r == Ok::<T, FlattenedError>(t),
            (None, None) => r == Err::<T, FlattenedError>(FlattenedError::Missing),
            (Some(_), Some(_)) => r == Err::<T, FlattenedError>(FlattenedError::Both),
        },
{
    match (flat, nested) {
        (Some(t), None) => Ok(t),
        (None, Some(t)) => Ok(t),
        (None, None) => Err(FlattenedError::Missing),
        (Some(_), Some(_)) => Err(FlattenedError::Both),
    }
}

} // verus!
