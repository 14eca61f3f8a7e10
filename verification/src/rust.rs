//! De/Serialization helpers for Rust's builtin and std types.

pub mod maps_duplicate_key_is_error;
pub mod maps_first_key_wins;
pub mod sets_duplicate_value_is_error;
pub mod sets_first_value_wins;

use crate::strings::{
    empty_separator_pieces, join_with, lemma_join_empty, lemma_join_split,
    lemma_split_join_empty_separator, lemma_split_join_exact, spec_join, spec_split, split_by,
    splits_back, strings_view,
};
use crate::Separator;
use std::marker::PhantomData;
use vstd::prelude::*;

verus! {

/// De/Serialize a delimited collection of strings.
///
/// The separator is given by a type implementing [`Separator`]. The values are
/// joined with the separator between each two of them; an empty string
/// deserializes as an empty collection, any other string as its pieces.
#[derive(Debug)]
pub struct StringWithSeparator<Sep>(pub PhantomData<Sep>);

impl<Sep: Separator> StringWithSeparator<Sep> {
    /// The string that a collection serializes to.
    pub open spec fn serialized(values: Seq<Seq<char>>) -> Seq<char> {
        spec_join(values, Sep::separator_chars())
    }

    /// The collection that a string deserializes to.
    pub open spec fn deserialized(s: Seq<char>) -> Seq<Seq<char>> {
        if s.len() == 0 {
            Seq::empty()
        } else {
            spec_split(s, Sep::separator_chars())
        }
    }

    /// Serialize the (already displayed) values, separated by the separator.
    pub fn serialize(values: &Vec<String>) -> (s: String)
        ensures
            s@ == Self::serialized(strings_view(values@)),
    {
        let sep = Sep::separator();
        join_with(values, sep)
    }

    /// Deserialize a string into its pieces between separators.
    pub fn deserialize(s: &str) -> (values: Vec<String>)
        ensures
            strings_view(values@) == Self::deserialized(s@),
    {
        if s.is_empty() {
            let values: Vec<String> = Vec::new();
            assert(strings_view(values@) =~= Seq::<Seq<char>>::empty());
            values
        } else {
            split_by(s, Sep::separator())
        }
    }

    /// Serializing the collection that a string deserializes to gives back
    /// the string.
    pub proof fn lemma_serialize_deserialized(s: Seq<char>)
        ensures
            Self::serialized(Self::deserialized(s)) == s,
    {
        if s.len() == 0 {
            assert(Self::serialized(Seq::empty()) =~= s);
        } else {
            lemma_join_split(s, Sep::separator_chars());
        }
    }

    /// Whether a collection deserializes back from what it serializes to:
    /// always when it is empty; with a non-empty separator, when it is not a
    /// single empty string and its values split back from their join; with an
    /// empty separator, when it is an empty string, single characters, and an
    /// empty string.
    pub open spec fn round_trips(values: Seq<Seq<char>>) -> bool {
        ||| values.len() == 0
        ||| Sep::separator_chars().len() == 0 && empty_separator_pieces(values)
        ||| Sep::separator_chars().len() > 0 && values != seq![Seq::<char>::empty()] && splits_back(
            values,
            Sep::separator_chars(),
        )
    }

    /// Deserializing a serialized collection gives back the collection exactly
    /// when it round-trips.
    pub proof fn lemma_deserialize_serialized(values: Seq<Seq<char>>)
        ensures
            Self::deserialized(Self::serialized(values)) == values <==> Self::round_trips(values),
    {
        let sep = Sep::separator_chars();
        let e = Seq::<char>::empty();
        let joined = spec_join(values, sep);
        if values.len() == 0 {
            assert(Self::deserialized(Self::serialized(values)) =~= values);
        } else if sep.len() == 0 {
            lemma_split_join_empty_separator(values);
            assert(sep =~= e);
            if joined.len() == 0 {
                assert(Self::deserialized(joined) =~= Seq::<Seq<char>>::empty());
            }
        } else {
            lemma_split_join_exact(values, sep);
            if joined.len() == 0 {
                lemma_join_empty(values, sep);
                assert(values[0] =~= e);
                assert(values =~= seq![e]);
                assert(Self::deserialized(joined) =~= Seq::<Seq<char>>::empty());
            } else if values == seq![e] {
                assert(joined == values[0]);
            }
        }
    }
}

} // verus!
