//! De/Serialization of chrono durations and timestamps.
//!
//! A chrono `Duration` is read through [`ChronoDuration`]: its whole seconds
//! (rounded toward zero) and the nanoseconds beyond them, as chrono's
//! `num_seconds` and `subsec_nanos` give them.

pub mod datetime_utc_ts_seconds_from_any;

use crate::number::{format_i64, lemma_parse_signed_range, parse_i64, parse_signed, spec_integer_string};
use crate::number::{lemma_integer_string_chars, lemma_parse_integer_string};
use crate::strings::{
    avoids_chars, lemma_split_no_separator, lemma_split_two, spec_split, split_by, strings_view,
};
use crate::utils::{
    fraction_nanos, lemma_fraction_digits, spec_fraction_nanos, SecondsStrError, NANOS_PER_SEC,
};
use crate::number::{all_digits, digits_value, is_digit, lemma_decimal, pow10, spec_decimal};
use crate::DurationSeconds;
use vstd::prelude::*;

verus! {

/// A chrono `Duration`: whole seconds rounded toward zero, and the
/// nanoseconds beyond them, which have the sign of the duration.
#[derive(Debug, Clone, Copy, PartialEq, Eq)]
pub struct ChronoDuration {
    pub secs: i64,
    pub nanos: i32,
}

impl ChronoDuration {
    /// Whether the parts are those of a duration that chrono can hold.
    pub open spec fn is_valid(self) -> bool {
        &&& -1_000_000_000 < self.nanos < 1_000_000_000
        &&& self.secs > 0 ==> self.nanos >= 0
        &&& self.secs < 0 ==> self.nanos <= 0
        &&& -9_223_372_036_854_776 <= self.secs <= 9_223_372_036_854_776
    }

    /// The length of the duration in nanoseconds.
    pub open spec fn total_nanos(self) -> int {
        self.secs * 1_000_000_000 + self.nanos
    }

    /// Whether the parts are those of a duration that chrono can hold.
    pub fn valid(&self) -> (b: bool)
        ensures
            b == self.is_valid(),
    {
        -1_000_000_000 < self.nanos && self.nanos < 1_000_000_000 && (self.secs <= 0
            || self.nanos >= 0) && (self.secs >= 0 || self.nanos <= 0) && -9_223_372_036_854_776
            <= self.secs && self.secs <= 9_223_372_036_854_776
    }
}

/// The absolute value of an integer.
pub open spec fn abs(n: int) -> int {
    if n < 0 {
        -n
    } else {
        n
    }
}

/// `n` nanoseconds as whole seconds, a half second or more rounded away from zero.
pub open spec fn round_half_away_secs(n: int) -> int {
    if n >= 0 {
        (n + 500_000_000) / 1_000_000_000
    } else {
        -((-n + 500_000_000) / 1_000_000_000)
    }
}

/// The nanoseconds beyond the whole seconds of the duration's absolute value.
pub fn duration_subsec_nanos(dur: ChronoDuration) -> (n: u32)
    requires
        dur.is_valid(),
    ensures
        n == abs(dur.total_nanos()) % 1_000_000_000,
        n == abs(dur.nanos as int),
{
    let ghost s = dur.secs as int;
    let ghost k = dur.nanos as int;
    assert(abs(s * 1_000_000_000 + k) % 1_000_000_000 == abs(k)) by (nonlinear_arith)
        requires
            -1_000_000_000 < k < 1_000_000_000,
            s > 0 ==> k >= 0,
            s < 0 ==> k <= 0,
    ;
    if dur.nanos < 0 {
        (-dur.nanos) as u32
    } else {
        dur.nanos as u32
    }
}

/// The duration in whole seconds, rounded half away from zero.
fn rounded_seconds(source: &ChronoDuration) -> (secs: i64)
    requires
        source.is_valid(),
    ensures
        secs == round_half_away_secs(source.total_nanos()),
{
    let mut secs = source.secs;
    let subsecs = duration_subsec_nanos(*source);
    let negative = source.secs < 0 || source.nanos < 0;
    let ghost s = source.secs as int;
    let ghost k = source.nanos as int;
    assert(round_half_away_secs(s * 1_000_000_000 + k) == if abs(k) >= 500_000_000 {
        if s < 0 || k < 0 {
            s - 1
        } else {
            s + 1
        }
    } else {
        s
    }) by (nonlinear_arith)
        requires
            -1_000_000_000 < k < 1_000_000_000,
            s > 0 ==> k >= 0,
            s < 0 ==> k <= 0,
    ;
    if subsecs >= 500_000_000 {
        if negative {
            secs = secs - 1;
        } else {
            secs = secs + 1;
        }
    }
    secs
}

impl<STRICTNESS> DurationSeconds<i64, STRICTNESS> {
    /// Serialize a chrono duration as whole seconds, a half second or more
    /// rounded away from zero.
    pub fn serialize_as(source: &ChronoDuration) -> (secs: i64)
        requires
            source.is_valid(),
        ensures
            secs == round_half_away_secs(source.total_nanos()),
    {
        rounded_seconds(source)
    }
}

impl<STRICTNESS> DurationSeconds<String, STRICTNESS> {
    /// Serialize a chrono duration as the decimal string of its whole
    /// seconds, a half second or more rounded away from zero.
    pub fn serialize_as(source: &ChronoDuration) -> (s: String)
        requires
            source.is_valid(),
        ensures
            s@ == spec_integer_string(round_half_away_secs(source.total_nanos())),
    {
        format_i64(rounded_seconds(source))
    }
}

/// Reads a chrono duration from an integer or from a string holding a number.
#[derive(Debug)]
pub struct DurationVisitiorFlexible;

/// A number of seconds that chrono's `Duration::seconds` does not take.
#[derive(Debug, Clone, Copy, PartialEq, Eq)]
pub struct SecondsOutOfRange;

/// Why a string is not a chrono duration.
#[derive(Debug, Clone, Copy, PartialEq, Eq)]
pub enum ChronoSecondsError {
    /// The string is not a number of the expected form.
    InvalidValue,
    /// The fraction has more than nine digits, finer than a nanosecond.
    TooPrecise,
    /// The number of seconds is beyond what a chrono duration holds.
    OutOfRange,
}

/// Whether chrono holds a duration of `secs` seconds and `nanos`
/// nanoseconds: `nanos` is below one second, and the duration lies within
/// `i64::MAX` milliseconds either way.
pub open spec fn chrono_holds(secs: int, nanos: int) -> bool {
    &&& 0 <= nanos < 1_000_000_000
    &&& -(i64::MAX as int) * 1_000_000 <= secs * 1_000_000_000 + nanos <= (i64::MAX as int)
        * 1_000_000
}

/// chrono's `Duration::new`: whether it makes a duration of `secs` seconds
/// and `nanos` nanoseconds. It makes none when `nanos` is a second or more,
/// or when the duration lies beyond `i64::MAX` milliseconds either way.
#[verifier::external_body]
fn chrono_duration_new(secs: i64, nanos: u32) -> (made: bool)
    ensures
        made == chrono_holds(secs as int, nanos as int),
{
    ::chrono::Duration::new(secs, nanos).is_some()
}

/// The seconds, when chrono holds a duration of that many whole seconds.
pub fn checked_seconds(secs: i64) -> (r: Result<i64, SecondsOutOfRange>)
    ensures
        chrono_holds(secs as int, 0) ==> r == Ok::<i64, SecondsOutOfRange>(secs),
        !chrono_holds(secs as int, 0) ==> r == Err::<i64, SecondsOutOfRange>(SecondsOutOfRange),
{
    if chrono_duration_new(secs, 0) {
        Ok(secs)
    } else {
        Err(SecondsOutOfRange)
    }
}

/// The duration that a string stands for, as whole seconds and the
/// nanoseconds to add to them: a whole number of seconds, optionally followed
/// by `.` and up to nine digits of a fraction. With a fraction and a leading
/// `-`, the fraction counts up from one second below the whole number, so
/// that `"-0.5"` is half a second below zero, and `"-1.25"` is one and three
/// quarter seconds below zero.
pub open spec fn spec_chrono_duration_from_str(s: Seq<char>) -> Result<(int, u32), SecondsStrError> {
    let parts = spec_split(s, seq!['.']);
    if parts.len() == 1 {
        match parse_signed(parts[0], i64::MIN as int, i64::MAX as int) {
            Some(v) => Ok((v, 0u32)),
            None => Err(SecondsStrError::InvalidValue),
        }
    } else if parts.len() == 2 {
        match parse_signed(parts[0], i64::MIN as int, i64::MAX as int) {
            Some(v) => match spec_fraction_nanos(parts[1]) {
                Ok(n) => Ok(
                    (
                        if parts[0].len() > 0 && parts[0][0] == '-' {
                            v - 1
                        } else {
                            v
                        },
                        n,
                    ),
                ),
                Err(e) => Err(e),
            },
            None => Err(SecondsStrError::InvalidValue),
        }
    } else {
        Err(SecondsStrError::InvalidValue)
    }
}

/// Reading flexibly what `DurationSeconds<String>` writes gives back the
/// whole seconds that were written.
pub proof fn lemma_flexible_reads_seconds_string(v: int)
    requires
        i64::MIN <= v <= i64::MAX,
    ensures
        spec_chrono_duration_from_str(spec_integer_string(v)) == Ok::<(int, u32), SecondsStrError>(
            (v, 0u32),
        ),
{
    let s = spec_integer_string(v);
    lemma_integer_string_chars(v);
    assert(avoids_chars(s, seq!['.'])) by {
        assert forall|i: int| 0 <= i < s.len() implies !seq!['.'].contains(#[trigger] s[i]) by {
            if seq!['.'].contains(s[i]) {
                assert(seq!['.'][0] == '.');
            }
        }
    }
    lemma_split_no_separator(s, seq!['.']);
    lemma_parse_integer_string(v, i64::MIN as int, i64::MAX as int);
}

/// What `DurationSeconds<String>` writes for a chrono duration reads back,
/// flexibly, as the duration rounded to whole seconds.
pub proof fn lemma_serialized_seconds_read_back(d: ChronoDuration)
    requires
        d.is_valid(),
    ensures
        spec_chrono_duration_from_str(spec_integer_string(round_half_away_secs(d.total_nanos())))
            == Ok::<(int, u32), SecondsStrError>((round_half_away_secs(d.total_nanos()), 0u32)),
{
    let s = d.secs as int;
    let k = d.nanos as int;
    assert(-9_223_372_036_854_777 <= round_half_away_secs(s * 1_000_000_000 + k)
        <= 9_223_372_036_854_777) by (nonlinear_arith)
        requires
            -1_000_000_000 < k < 1_000_000_000,
            -9_223_372_036_854_776 <= s <= 9_223_372_036_854_776,
    ;
    lemma_flexible_reads_seconds_string(round_half_away_secs(d.total_nanos()));
}

/// Whole seconds are written as the integer nearest to the duration, a
/// tie going away from zero: within half a second of it, the half second
/// counting toward the rounded value when the duration is not negative and
/// away from it when it is.
pub proof fn lemma_rounded_seconds_nearest(n: int)
    ensures
        n >= 0 ==> round_half_away_secs(n) * 1_000_000_000 - 500_000_000 <= n
            < round_half_away_secs(n) * 1_000_000_000 + 500_000_000,
        n < 0 ==> round_half_away_secs(n) * 1_000_000_000 - 500_000_000 < n
            <= round_half_away_secs(n) * 1_000_000_000 + 500_000_000,
{
    let r = round_half_away_secs(n);
    if n >= 0 {
        let q = (n + 500_000_000) / 1_000_000_000;
        assert(q * 1_000_000_000 <= n + 500_000_000 < q * 1_000_000_000 + 1_000_000_000)
            by (nonlinear_arith)
            requires
                q == (n + 500_000_000) / 1_000_000_000,
        ;
    } else {
        let q = (-n + 500_000_000) / 1_000_000_000;
        assert(q * 1_000_000_000 <= -n + 500_000_000 < q * 1_000_000_000 + 1_000_000_000)
            by (nonlinear_arith)
            requires
                q == (-n + 500_000_000) / 1_000_000_000,
        ;
        assert(r == -q);
    }
}

/// A string of whole seconds, as `Display` writes any `i64`, then `.` and one
/// to nine digits, is read flexibly as those seconds and the fraction in
/// nanoseconds, each digit, leading zeros included, one decimal place; after
/// a negative number the fraction counts up from one second below it.
pub proof fn lemma_chrono_duration_with_fraction(s: i64, f: Seq<char>)
    requires
        all_digits(f),
        1 <= f.len() <= 9,
    ensures
        spec_chrono_duration_from_str(spec_integer_string(s as int) + seq!['.'] + f) matches Ok(
            (secs, nanos),
        ) && secs == (if s < 0 {
            s - 1
        } else {
            s as int
        }) && nanos as int == digits_value(f) * pow10((9 - f.len()) as nat),
{
    let w = spec_integer_string(s as int);
    lemma_integer_string_chars(s as int);
    assert(avoids_chars(w, seq!['.'])) by {
        assert forall|i: int| 0 <= i < w.len() implies !seq!['.'].contains(#[trigger] w[i]) by {
            if seq!['.'].contains(w[i]) {
                assert(seq!['.'][0] == '.');
            }
        }
    }
    assert(avoids_chars(f, seq!['.'])) by {
        assert forall|i: int| 0 <= i < f.len() implies !seq!['.'].contains(#[trigger] f[i]) by {
            if seq!['.'].contains(f[i]) {
                assert(seq!['.'][0] == '.');
            }
        }
    }
    lemma_split_two(w, f, seq!['.']);
    lemma_parse_integer_string(s as int, i64::MIN as int, i64::MAX as int);
    lemma_fraction_digits(f);
    if s >= 0 {
        lemma_decimal(s as nat);
        assert(is_digit(w[0]));
    } else {
        assert(w[0] == '-');
    }
}

impl DurationVisitiorFlexible {
    /// A signed number of seconds, refused beyond chrono's range.
    pub fn visit_i64(&self, secs: i64) -> (r: Result<i64, SecondsOutOfRange>)
        ensures
            chrono_holds(secs as int, 0) ==> r == Ok::<i64, SecondsOutOfRange>(secs),
            !chrono_holds(secs as int, 0) ==> r == Err::<i64, SecondsOutOfRange>(SecondsOutOfRange),
    {
        checked_seconds(secs)
    }

    /// An unsigned number of seconds, refused beyond chrono's range.
    pub fn visit_u64(&self, secs: u64) -> (r: Result<i64, SecondsOutOfRange>)
        ensures
            chrono_holds(secs as int, 0) ==> r == Ok::<i64, SecondsOutOfRange>(secs as i64),
            !chrono_holds(secs as int, 0) ==> r == Err::<i64, SecondsOutOfRange>(SecondsOutOfRange),
    {
        if secs <= i64::MAX as u64 {
            checked_seconds(secs as i64)
        } else {
            Err(SecondsOutOfRange)
        }
    }

    /// A string holding whole seconds, optionally with a fraction of up to
    /// nine digits; the result is the whole seconds and the nanoseconds to
    /// add, refused beyond chrono's range; chrono's `Duration::new` takes
    /// them.
    pub fn visit_str(&self, value: &str) -> (r: Result<(i64, u32), ChronoSecondsError>)
        ensures
            match spec_chrono_duration_from_str(value@) {
                Ok((secs, nanos)) => if chrono_holds(secs, nanos as int) {
                    r == Ok::<(i64, u32), ChronoSecondsError>((secs as i64, nanos))
                } else {
                    r == Err::<(i64, u32), ChronoSecondsError>(ChronoSecondsError::OutOfRange)
                },
                Err(SecondsStrError::InvalidValue) => r == Err::<(i64, u32), ChronoSecondsError>(
                    ChronoSecondsError::InvalidValue,
                ),
                Err(SecondsStrError::TooPrecise) => r == Err::<(i64, u32), ChronoSecondsError>(
                    ChronoSecondsError::TooPrecise,
                ),
            },
            r matches Ok((_, n)) ==> n < NANOS_PER_SEC,
    {
        match parse_chrono_seconds(value) {
            Ok((secs, nanos)) => {
                if secs < i64::MIN as i128 || secs > i64::MAX as i128 {
                    Err(ChronoSecondsError::OutOfRange)
                } else if chrono_duration_new(secs as i64, nanos) {
                    Ok((secs as i64, nanos))
                } else {
                    Err(ChronoSecondsError::OutOfRange)
                }
            },
            Err(SecondsStrError::InvalidValue) => Err(ChronoSecondsError::InvalidValue),
            Err(SecondsStrError::TooPrecise) => Err(ChronoSecondsError::TooPrecise),
        }
    }
}

/// The whole seconds and the nanoseconds to add that a string stands for.
fn parse_chrono_seconds(value: &str) -> (r: Result<(i128, u32), SecondsStrError>)
    ensures
        match r {
            Ok((secs, nanos)) => spec_chrono_duration_from_str(value@) == Ok::<
                (int, u32),
                SecondsStrError,
            >((secs as int, nanos)),
            Err(e) => spec_chrono_duration_from_str(value@) == Err::<(int, u32), SecondsStrError>(e),
        },
        r matches Ok((_, n)) ==> n < NANOS_PER_SEC,
{
    let dot = ".";
    proof {
        reveal_strlit(".");
    }
    assert(dot@ =~= seq!['.']);
    let parts = split_by(value, dot);
    assert(strings_view(parts@) == spec_split(value@, seq!['.']));
    if parts.len() == 1 {
        assert(parts[0]@ == strings_view(parts@)[0]);
        proof {
            lemma_parse_signed_range(parts[0]@, i64::MIN as int, i64::MAX as int);
        }
        match parse_i64(parts[0].as_str()) {
            Some(secs) => Ok((secs as i128, 0)),
            None => Err(SecondsStrError::InvalidValue),
        }
    } else if parts.len() == 2 {
        assert(parts[0]@ == strings_view(parts@)[0]);
        assert(parts[1]@ == strings_view(parts@)[1]);
        proof {
            lemma_parse_signed_range(parts[0]@, i64::MIN as int, i64::MAX as int);
        }
        match parse_i64(parts[0].as_str()) {
            Some(secs) => match fraction_nanos(parts[1].as_str()) {
                Ok(nanos) => {
                    let first = parts[0].as_str();
                    let negative = !first.is_empty() && first.get_char(0) == '-';
                    if negative {
                        Ok((secs as i128 - 1, nanos))
                    } else {
                        Ok((secs as i128, nanos))
                    }
                },
                Err(e) => Err(e),
            },
            None => Err(SecondsStrError::InvalidValue),
        }
    } else {
        Err(SecondsStrError::InvalidValue)
    }
}

} // verus!
