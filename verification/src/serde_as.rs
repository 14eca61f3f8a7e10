//! Adapter types for the `serde_as` scheme whose work is done by the serde
//! glue: they name how a value is to be de/serialized.

use std::marker::PhantomData;
use vstd::prelude::*;

verus! {

/// De/Serialize a `T` with its own `Serialize` and `Deserialize` impls.
#[derive(Debug)]
pub struct SameAs<T>(pub PhantomData<T>);

/// Serialize a value as the string that its `Display` impl writes.
#[derive(Copy, Clone, Debug, Default)]
pub struct DisplayString;

/// De/Serialize a value as a string holding its JSON text.
#[derive(Copy, Clone, Debug, Default)]
pub struct JsonString;

} // verus!
