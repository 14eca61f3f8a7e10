//! Serialization helpers: the wrapper for container-like adapters, and the
//! writing of `std::time::Duration` values as whole seconds.

use crate::de::spec_duration_from_str;
use crate::number::{all_digits, digits_value, format_u64, is_digit, lemma_decimal, pow10, spec_decimal};
use crate::strings::{avoids_chars, lemma_split_no_separator, lemma_split_two};
use crate::utils::{lemma_fraction_digits, SecondsStrError, NANOS_PER_SEC};
use crate::DurationSeconds;
use std::marker::PhantomData;
use vstd::prelude::*;

verus! {

/// A reference to a value of type `T` that is to be serialized as the
/// adapter type `U`; the helper for container-like adapters.
#[derive(Debug)]
pub struct SerializeAsWrap<'a, T, U> {
    pub value: &'a T,
    pub marker: PhantomData<U>,
}

impl<'a, T, U> SerializeAsWrap<'a, T, U> {
    /// Create new instance with provided value.
    pub fn new(value: &'a T) -> (w: Self)
        ensures
            w.value == value,
    {
        SerializeAsWrap { value, marker: PhantomData }
    }
}

/// `secs` seconds and `nanos` nanoseconds as whole seconds, half a second or
/// more rounded up.
pub open spec fn round_half_up_secs(secs: int, nanos: int) -> int {
    (secs * 1_000_000_000 + nanos + 500_000_000) / 1_000_000_000
}

/// The whole seconds that a `std::time::Duration` of `secs` seconds and
/// `nanos` nanoseconds is written as.
fn rounded_std_seconds(secs: u64, nanos: u32) -> (r: u64)
    requires
        nanos < NANOS_PER_SEC,
        secs < u64::MAX || nanos < 500_000_000,
    ensures
        r == round_half_up_secs(secs as int, nanos as int),
{
    let ghost s = secs as int;
    let ghost k = nanos as int;
    assert(round_half_up_secs(s, k) == if k >= 500_000_000 { s + 1 } else { s }) by (nonlinear_arith)
        requires
            0 <= k < 1_000_000_000,
    ;
    if nanos >= 500_000_000 {
        secs + 1
    } else {
        secs
    }
}

impl<STRICTNESS> DurationSeconds<u64, STRICTNESS> {
    /// Serialize a `std::time::Duration` of `secs` seconds and `nanos`
    /// nanoseconds as whole seconds, half a second or more rounded up.
    pub fn serialize_as(secs: u64, nanos: u32) -> (r: u64)
        requires
            nanos < NANOS_PER_SEC,
            secs < u64::MAX || nanos < 500_000_000,
        ensures
            r == round_half_up_secs(secs as int, nanos as int),
    {
        rounded_std_seconds(secs, nanos)
    }
}

impl<STRICTNESS> DurationSeconds<String, STRICTNESS> {
    /// Serialize a `std::time::Duration` of `secs` seconds and `nanos`
    /// nanoseconds as the decimal string of its whole seconds, half a second
    /// or more rounded up.
    pub fn serialize_std_as(secs: u64, nanos: u32) -> (s: String)
        requires
            nanos < NANOS_PER_SEC,
            secs < u64::MAX || nanos < 500_000_000,
        ensures
            s@ == spec_decimal(round_half_up_secs(secs as int, nanos as int) as nat),
    {
        format_u64(rounded_std_seconds(secs, nanos))
    }
}

/// Reading flexibly the decimal string of a number of seconds gives the same
/// duration as reading the number itself.
pub proof fn lemma_flexible_reads_decimal(v: nat)
    requires
        v <= u64::MAX,
    ensures
        spec_duration_from_str(spec_decimal(v)) == Ok::<(u64, u32), SecondsStrError>((v as u64, 0u32)),
{
    let s = spec_decimal(v);
    lemma_decimal(v);
    assert(avoids_chars(s, seq!['.'])) by {
        assert forall|i: int| 0 <= i < s.len() implies !seq!['.'].contains(#[trigger] s[i]) by {
            assert(is_digit(s[i]));
            if seq!['.'].contains(s[i]) {
                assert(seq!['.'][0] == '.');
            }
        }
    }
    lemma_split_no_separator(s, seq!['.']);
    assert(is_digit(s[0]));
}

/// What `DurationSeconds<String>` writes for a `std::time::Duration` reads
/// back, flexibly, as the duration rounded to whole seconds.
pub proof fn lemma_std_seconds_read_back(secs: u64, nanos: u32)
    requires
        nanos < NANOS_PER_SEC,
        secs < u64::MAX || nanos < 500_000_000,
    ensures
        spec_duration_from_str(spec_decimal(round_half_up_secs(secs as int, nanos as int) as nat))
            == Ok::<(u64, u32), SecondsStrError>(
            (round_half_up_secs(secs as int, nanos as int) as u64, 0u32),
        ),
{
    let s = secs as int;
    let k = nanos as int;
    assert(round_half_up_secs(s, k) == if k >= 500_000_000 { s + 1 } else { s }) by (nonlinear_arith)
        requires
            0 <= k < 1_000_000_000,
    ;
    lemma_flexible_reads_decimal(round_half_up_secs(s, k) as nat);
}

/// A `std::time::Duration` is written as the whole seconds nearest to it,
/// half a second rounding up.
pub proof fn lemma_std_rounded_seconds_nearest(secs: u64, nanos: u32)
    requires
        nanos < NANOS_PER_SEC,
    ensures
        round_half_up_secs(secs as int, nanos as int) * 1_000_000_000 - 500_000_000 <= secs
            * 1_000_000_000 + nanos < round_half_up_secs(secs as int, nanos as int)
            * 1_000_000_000 + 500_000_000,
{
    let n = secs * 1_000_000_000 + nanos;
    let q = round_half_up_secs(secs as int, nanos as int);
    assert(q * 1_000_000_000 <= n + 500_000_000 < q * 1_000_000_000 + 1_000_000_000)
        by (nonlinear_arith)
        requires
            n >= 0,
            q == (n + 500_000_000) / 1_000_000_000,
    ;
}

/// A string of whole seconds, as `Display` writes any `u64`, then `.` and one
/// to nine digits, is read flexibly as those seconds and the fraction in
/// nanoseconds: each digit, leading zeros included, is one decimal place.
pub proof fn lemma_std_duration_with_fraction(s: u64, f: Seq<char>)
    requires
        all_digits(f),
        1 <= f.len() <= 9,
    ensures
        spec_duration_from_str(spec_decimal(s as nat) + seq!['.'] + f) matches Ok((secs, nanos))
            && secs == s && nanos as int == digits_value(f) * pow10((9 - f.len()) as nat),
{
    let w = spec_decimal(s as nat);
    lemma_decimal(s as nat);
    assert(avoids_chars(w, seq!['.'])) by {
        assert forall|i: int| 0 <= i < w.len() implies !seq!['.'].contains(#[trigger] w[i]) by {
            assert(is_digit(w[i]));
            if seq!['.'].contains(w[i]) {
                assert(seq!['.'][0] == '.');
            }
        }
    }
    assert(avoids_chars(f, seq!['.'])) by {
        assert forall|i: int| 0 <= i < f.len() implies !seq!['.'].contains(#[trigger] f[i]) by {
            assert(is_digit(f[i]));
            if seq!['.'].contains(f[i]) {
                assert(seq!['.'][0] == '.');
            }
        }
    }
    lemma_split_two(w, f, seq!['.']);
    assert(is_digit(w[0]));
    lemma_fraction_digits(f);
}

/// A duration of whole seconds is written as its seconds.
pub proof fn lemma_whole_seconds_written_exactly(secs: u64)
    ensures
        round_half_up_secs(secs as int, 0) == secs,
{
    let s = secs as int;
    assert((s * 1_000_000_000 + 500_000_000) / 1_000_000_000 == s) by (nonlinear_arith)
        requires
            s >= 0,
    ;
}

} // verus!
