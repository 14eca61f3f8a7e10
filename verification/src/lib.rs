//! Custom de/serialization helpers for serde's `with` annotation and the
//! `serde_as` adapters. The verified library holds the value logic of each
//! helper: string joining and splitting, hex coding, duplicate detection in
//! sets and maps, and the parsing of seconds and timestamps.

pub mod chrono;
pub mod de;
pub mod duplicate_key_impls;
pub mod flatten_maybe;
pub mod hex;
pub mod number;
pub mod rust;
pub mod ser;
pub mod serde_as;
pub mod strings;
pub mod utils;

use std::marker::PhantomData;
use vstd::prelude::*;

verus! {

/// Separator for string-based collection de/serialization.
pub trait Separator {
    /// The characters of the separator.
    spec fn separator_chars() -> Seq<char>;

    /// Return the string delimiting two elements in the string-based collection.
    fn separator() -> (sep: &'static str)
        ensures
            sep@ == Self::separator_chars(),
    ;
}

/// Predefined separator using a single space.
#[derive(Copy, Clone, Eq, PartialEq, Ord, PartialOrd, Hash, Debug, Default)]
pub struct SpaceSeparator;

impl Separator for SpaceSeparator {
    open spec fn separator_chars() -> Seq<char> {
        seq![' ']
    }

    fn separator() -> (sep: &'static str) {
        proof {
            reveal_strlit(" ");
        }
        " "
    }
}

/// Predefined separator using a single comma.
#[derive(Copy, Clone, Eq, PartialEq, Ord, PartialOrd, Hash, Debug, Default)]
pub struct CommaSeparator;

impl Separator for CommaSeparator {
    open spec fn separator_chars() -> Seq<char> {
        seq![',']
    }

    fn separator() -> (sep: &'static str) {
        proof {
            reveal_strlit(",");
        }
        ","
    }
}

/// Use the normal `Serialize` and `Deserialize` impls of the value.
#[derive(Copy, Clone, Debug, Default)]
pub struct Same;

/// De/Serialize using the `Display` and `FromStr` impls of the value.
#[derive(Copy, Clone, Debug, Default)]
pub struct DisplayFromStr;

/// De/Serialize an `Option<String>`, the empty string standing for `None`.
#[derive(Copy, Clone, Debug, Default)]
pub struct NoneAsEmptyString;

/// Deserialize as `T`, taking the default value where that fails.
#[derive(Debug)]
pub struct DefaultOnError<T>(pub PhantomData<T>);

/// Deserialize bytes from either a byte sequence or a string.
#[derive(Copy, Clone, Debug, Default)]
pub struct BytesOrString;

/// De/Serialize bytes as a byte sequence; arrays of bytes are also read
/// from strings.
#[derive(Copy, Clone, Debug, Default)]
pub struct Bytes;

impl Bytes {
    /// An array of `n` bytes from the given bytes, which must be exactly `n`;
    /// otherwise the error is their number.
    pub fn deserialize_array(v: &[u8], n: usize) -> (r: Result<Vec<u8>, usize>)
        ensures
            v@.len() == n ==> (r matches Ok(a) && a@ == v@),
            v@.len() != n ==> r == Err::<Vec<u8>, usize>(v@.len() as usize),
    {
        if v.len() == n {
            Ok(vstd::slice::slice_to_vec(v))
        } else {
            Err(v.len())
        }
    }
}

/// The value that `NoneAsEmptyString` reads from a string.
pub open spec fn spec_none_as_empty(s: Seq<char>) -> Option<Seq<char>> {
    if s.len() == 0 {
        None
    } else {
        Some(s)
    }
}

/// The string that `NoneAsEmptyString` writes for a value.
pub open spec fn spec_empty_for_none(v: Option<Seq<char>>) -> Seq<char> {
    match v {
        Some(s) => s,
        None => Seq::empty(),
    }
}

impl NoneAsEmptyString {
    /// Deserialize a string: the empty string as `None`, any other as itself.
    pub fn deserialize_as(value: &str) -> (r: Option<String>)
        ensures
            match r {
                Some(s) => spec_none_as_empty(value@) == Some(s@),
                None => spec_none_as_empty(value@) is None,
            },
    {
        if value.is_empty() {
            None
        } else {
            Some(String::from_str(value))
        }
    }

    /// Serialize an optional string: `None` as the empty string.
    pub fn serialize_as(source: &Option<String>) -> (s: String)
        ensures
            s@ == spec_empty_for_none(
                match source {
                    Some(x) => Some(x@),
                    None => None,
                },
            ),
    {
        match source {
            Some(x) => x.clone(),
            None => String::new(),
        }
    }

    /// Reading what was written for a value gives the value back, unless it
    /// is `Some` of the empty string, which reads as `None`.
    pub proof fn lemma_deserialize_serialized(v: Option<Seq<char>>)
        requires
            v != Some(Seq::<char>::empty()),
        ensures
            spec_none_as_empty(spec_empty_for_none(v)) == v,
    {
        if let Some(s) = v {
            if s.len() == 0 {
                assert(s =~= Seq::<char>::empty());
            }
        }
    }

    /// Writing what was read from a string gives the string back.
    pub proof fn lemma_serialize_deserialized(s: Seq<char>)
        ensures
            spec_empty_for_none(spec_none_as_empty(s)) == s,
    {
        if s.len() == 0 {
            assert(s =~= Seq::<char>::empty());
        }
    }
}

/// De/Serialize a duration as whole seconds, in the format `FORMAT`
/// (an integer type, a float type or `String`), read strictly or flexibly as
/// `STRICTNESS` says.
#[derive(Debug)]
pub struct DurationSeconds<FORMAT, STRICTNESS>(pub PhantomData<(FORMAT, STRICTNESS)>);

/// De/Serialize a duration as seconds with a fraction, in the format `FORMAT`
/// (a float type or `String`), read strictly or flexibly as `STRICTNESS` says.
#[derive(Debug)]
pub struct DurationSecondsWithFrac<FORMAT, STRICTNESS>(pub PhantomData<(FORMAT, STRICTNESS)>);

} // verus!
