//! Read a Unix timestamp, with optional subsecond precision, from an integer
//! or from a string holding a number.

use crate::number::{
    all_digits, digits_value, pow10,
    lemma_integer_string_chars, lemma_parse_integer_string, lemma_parse_signed_range, parse_i64,
    parse_signed, spec_integer_string,
};
use crate::strings::{
    avoids_chars, lemma_split_no_separator, lemma_split_two, spec_split, split_by, strings_view,
};
use crate::utils::{
    fraction_nanos, lemma_fraction_digits, spec_fraction_nanos, SecondsStrError, NANOS_PER_SEC,
};

use vstd::prelude::*;

verus! {

#[verifier::external_type_specification]
#[verifier::external_body]
pub struct ExNaiveDateTime(::chrono::NaiveDateTime);

/// What chrono's `NaiveDateTime::from_timestamp_opt` gives for the seconds
/// and nanoseconds since the Unix epoch.
pub uninterp spec fn chrono_from_timestamp(secs: i64, nsecs: u32) -> Option<::chrono::NaiveDateTime>;

/// `NaiveDateTime::from_timestamp_opt`: the date and time `secs` seconds and
/// `nsecs` nanoseconds after the Unix epoch, or `None` when out of range.
/// Which timestamps are in range is not stated; the result is a function of
/// the two arguments.
#[verifier::external_body]
#[allow(deprecated)]
fn naive_from_timestamp(secs: i64, nsecs: u32) -> (r: Option<::chrono::NaiveDateTime>)
    ensures
        r == chrono_from_timestamp(secs, nsecs),
{
    ::chrono::NaiveDateTime::from_timestamp_opt(secs, nsecs)
}

/// Why a value is not a timestamp.
#[derive(Debug, Clone, Copy, PartialEq, Eq)]
pub enum TimestampError {
    /// The string is not a number of the expected form.
    InvalidValue,
    /// The fraction has more than nine digits.
    TooPrecise,
    /// chrono cannot hold a date and time so far from the epoch.
    OutOfRange,
}

/// The seconds and nanoseconds that a timestamp string stands for: whole
/// seconds, optionally followed by `.` and up to nine digits of a fraction.
pub open spec fn spec_parse_timestamp_str(s: Seq<char>) -> Result<(i64, u32), SecondsStrError> {
    let parts = spec_split(s, seq!['.']);
    if parts.len() == 1 {
        match parse_signed(parts[0], i64::MIN as int, i64::MAX as int) {
            Some(v) => Ok((v as i64, 0u32)),
            None => Err(SecondsStrError::InvalidValue),
        }
    } else if parts.len() == 2 {
        match parse_signed(parts[0], i64::MIN as int, i64::MAX as int) {
            Some(v) => match spec_fraction_nanos(parts[1]) {
                Ok(n) => Ok((v as i64, n)),
                Err(e) => Err(e),
            },
            None => Err(SecondsStrError::InvalidValue),
        }
    } else {
        Err(SecondsStrError::InvalidValue)
    }
}

/// A string holding a whole number of seconds, as `Display` writes it, is
/// read as that number of seconds, so that it gives the same timestamp as the
/// number itself.
pub proof fn lemma_integer_string_timestamp(v: i64)
    ensures
        spec_parse_timestamp_str(spec_integer_string(v as int)) == Ok::<(i64, u32), SecondsStrError>(
            (v, 0u32),
        ),
{
    let s = spec_integer_string(v as int);
    lemma_integer_string_chars(v as int);
    assert(avoids_chars(s, seq!['.'])) by {
        assert forall|i: int| 0 <= i < s.len() implies !seq!['.'].contains(#[trigger] s[i]) by {
            if seq!['.'].contains(s[i]) {
                assert(seq!['.'][0] == '.');
            }
        }
    }
    lemma_split_no_separator(s, seq!['.']);
    lemma_parse_integer_string(v as int, i64::MIN as int, i64::MAX as int);
}

/// A timestamp string of whole seconds, as `Display` writes any `i64`, then
/// `.` and one to nine digits, stands for those seconds and the fraction in
/// nanoseconds: each digit, leading zeros included, is one decimal place.
pub proof fn lemma_timestamp_with_fraction(s: i64, f: Seq<char>)
    requires
        all_digits(f),
        1 <= f.len() <= 9,
    ensures
        spec_parse_timestamp_str(spec_integer_string(s as int) + seq!['.'] + f) matches Ok(
            (secs, nanos),
        ) && secs == s && nanos as int == digits_value(f) * pow10((9 - f.len()) as nat),
{
    let w = spec_integer_string(s as int);
    lemma_integer_string_chars(s as int);
    assert(avoids_chars(w, seq!['.'])) by {
        assert forall|i: int| 0 <= i < w.len() implies !seq!['.'].contains(#[trigger] w[i]) by {
            if seq!['.'].contains(w[i]) {
                assert(seq!['.'][0] == '.');
            }
        }
    }
    assert(avoids_chars(f, seq!['.'])) by {
        assert forall|i: int| 0 <= i < f.len() implies !seq!['.'].contains(#[trigger] f[i]) by {
            if seq!['.'].contains(f[i]) {
                assert(seq!['.'][0] == '.');
            }
        }
    }
    lemma_split_two(w, f, seq!['.']);
    lemma_parse_integer_string(s as int, i64::MIN as int, i64::MAX as int);
    lemma_fraction_digits(f);
}

/// The seconds and nanoseconds that a timestamp string stands for.
pub fn parse_timestamp_str(value: &str) -> (r: Result<(i64, u32), SecondsStrError>)
    ensures
        r == spec_parse_timestamp_str(value@),
        r matches Ok((_, n)) ==> n < NANOS_PER_SEC,
{
    let dot = ".";
    proof {
        reveal_strlit(".");
    }
    assert(dot@ =~= seq!['.']);
    let parts = split_by(value, dot);
    assert(strings_view(parts@) == spec_split(value@, seq!['.']));
    if parts.len() == 1 {
        assert(parts[0]@ == strings_view(parts@)[0]);
        proof {
            lemma_parse_signed_range(parts[0]@, i64::MIN as int, i64::MAX as int);
        }
        match parse_i64(parts[0].as_str()) {
            Some(secs) => Ok((secs, 0)),
            None => Err(SecondsStrError::InvalidValue),
        }
    } else if parts.len() == 2 {
        assert(parts[0]@ == strings_view(parts@)[0]);
        assert(parts[1]@ == strings_view(parts@)[1]);
        proof {
            lemma_parse_signed_range(parts[0]@, i64::MIN as int, i64::MAX as int);
        }
        match parse_i64(parts[0].as_str()) {
            Some(secs) => match fraction_nanos(parts[1].as_str()) {
                Ok(nanos) => Ok((secs, nanos)),
                Err(e) => Err(e),
            },
            None => Err(SecondsStrError::InvalidValue),
        }
    } else {
        Err(SecondsStrError::InvalidValue)
    }
}

/// The outcome for the timestamp `secs` and `nsecs`, given what chrono made
/// of them: the date and time, or `OutOfRange` when chrono made none.
pub fn timestamp_outcome(made: Option<::chrono::NaiveDateTime>) -> (r: Result<::chrono::NaiveDateTime, TimestampError>)
    ensures
        match made {
            Some(dt) => r == Ok::<::chrono::NaiveDateTime, TimestampError>(dt),
            None => r == Err::<::chrono::NaiveDateTime, TimestampError>(TimestampError::OutOfRange),
        },
{
    match made {
        Some(dt) => Ok(dt),
        None => Err(TimestampError::OutOfRange),
    }
}

/// The date and time `secs` seconds and `nsecs` nanoseconds after the epoch.
pub fn timestamp_from_parts(secs: i64, nsecs: u32) -> (r: Result<
    ::chrono::NaiveDateTime,
    TimestampError,
>)
    ensures
        match chrono_from_timestamp(secs, nsecs) {
            Some(dt) => r == Ok::<::chrono::NaiveDateTime, TimestampError>(dt),
            None => r == Err::<::chrono::NaiveDateTime, TimestampError>(TimestampError::OutOfRange),
        },
{
    timestamp_outcome(naive_from_timestamp(secs, nsecs))
}

/// The date and time of a timestamp given as whole seconds.
pub fn timestamp_from_i64(value: i64) -> (r: Result<::chrono::NaiveDateTime, TimestampError>)
    ensures
        match chrono_from_timestamp(value, 0) {
            Some(dt) => r == Ok::<::chrono::NaiveDateTime, TimestampError>(dt),
            None => r == Err::<::chrono::NaiveDateTime, TimestampError>(TimestampError::OutOfRange),
        },
{
    timestamp_from_parts(value, 0)
}

/// The date and time of a timestamp given as unsigned whole seconds; the
/// value is reinterpreted as an `i64`, so values above `i64::MAX` wrap around.
pub fn timestamp_from_u64(value: u64) -> (r: Result<::chrono::NaiveDateTime, TimestampError>)
    ensures
        match chrono_from_timestamp(value as i64, 0) {
            Some(dt) => r == Ok::<::chrono::NaiveDateTime, TimestampError>(dt),
            None => r == Err::<::chrono::NaiveDateTime, TimestampError>(TimestampError::OutOfRange),
        },
{
    timestamp_from_parts(value as i64, 0)
}

/// The date and time of a timestamp string.
pub fn timestamp_from_str(value: &str) -> (r: Result<::chrono::NaiveDateTime, TimestampError>)
    ensures
        match spec_parse_timestamp_str(value@) {
            Ok((secs, nanos)) => match chrono_from_timestamp(secs, nanos) {
                Some(dt) => r == Ok::<::chrono::NaiveDateTime, TimestampError>(dt),
                None => r == Err::<::chrono::NaiveDateTime, TimestampError>(TimestampError::OutOfRange),
            },
            Err(SecondsStrError::InvalidValue) => r == Err::<::chrono::NaiveDateTime, TimestampError>(
                TimestampError::InvalidValue,
            ),
            Err(SecondsStrError::TooPrecise) => r == Err::<::chrono::NaiveDateTime, TimestampError>(
                TimestampError::TooPrecise,
            ),
        },
{
    match parse_timestamp_str(value) {
        Ok((secs, nanos)) => timestamp_from_parts(secs, nanos),
        Err(SecondsStrError::InvalidValue) => Err(TimestampError::InvalidValue),
        Err(SecondsStrError::TooPrecise) => Err(TimestampError::TooPrecise),
    }
}

} // verus!
