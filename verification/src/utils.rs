//! Small helpers shared by the de/serialization adapters.

use crate::number::{
    all_digits, digits_value, is_digit, lemma_digits_value_nonneg, lemma_parse_unsigned_range, lemma_pow10_values, parse_u32, parse_unsigned, pow10, pow10_u32,
    unsigned_body,
};
use vstd::prelude::*;

verus! {

/// Nanoseconds in one second.
pub const NANOS_PER_SEC: u32 = 1_000_000_000;

/// The capacity to reserve for a collection of `hint` announced elements:
/// the hint when there is one, but never more than 4096.
pub fn size_hint_cautious(hint: Option<usize>) -> (r: usize)
    ensures
        r == (match hint {
            Some(h) => if h < 4096 {
                h
            } else {
                4096
            },
            None => 0,
        }),
{
    let h = match hint {
        Some(h) => h,
        None => 0,
    };
    if h < 4096 {
        h
    } else {
        4096
    }
}

/// Why a string does not stand for a number of seconds.
#[derive(Debug, Clone, Copy, PartialEq, Eq)]
pub enum SecondsStrError {
    /// The string is not a number of the expected form.
    InvalidValue,
    /// The fraction has more than nine digits, finer than a nanosecond.
    TooPrecise,
}

/// The nanoseconds that the digits after the decimal point stand for: at
/// most nine characters, read as a `u32` and scaled to nine places.
pub open spec fn spec_fraction_nanos(f: Seq<char>) -> Result<u32, SecondsStrError> {
    if f.len() > 9 {
        Err(SecondsStrError::TooPrecise)
    } else {
        match parse_unsigned(f, u32::MAX as int) {
            Some(v) => Ok((v * pow10((9 - f.len()) as nat)) as u32),
            None => Err(SecondsStrError::InvalidValue),
        }
    }
}

pub proof fn lemma_pow10_add(a: nat, b: nat)
    ensures
        pow10(a) * pow10(b) == pow10(a + b),
        pow10(a) >= 1,
    decreases a,
{
    if a > 0 {
        lemma_pow10_add((a - 1) as nat, b);
        assert(pow10(a) * pow10(b) == 10 * (pow10((a - 1) as nat) * pow10(b))) by (nonlinear_arith)
            requires
                pow10(a) == 10 * pow10((a - 1) as nat),
        ;
    }
}

pub proof fn lemma_pow10_mono(a: nat, b: nat)
    requires
        a <= b,
    ensures
        pow10(a) <= pow10(b),
    decreases b,
{
    if a < b {
        lemma_pow10_mono(a, (b - 1) as nat);
        lemma_pow10_add((b - 1) as nat, 0);
    }
}

/// A fraction read as nanoseconds is less than one second.
pub proof fn lemma_fraction_nanos_bound(f: Seq<char>)
    ensures
        spec_fraction_nanos(f) matches Ok(n) ==> n < NANOS_PER_SEC,
        f.len() <= 9 ==> (parse_unsigned(f, u32::MAX as int) matches Some(v) ==> v * pow10(
            (9 - f.len()) as nat,
        ) < 1_000_000_000),
{
    if f.len() <= 9 {
        if let Some(v) = parse_unsigned(f, u32::MAX as int) {
            let body = unsigned_body(f);
            let k = body.len();
            let e = (9 - f.len()) as nat;
            lemma_digits_value_nonneg(body);
            lemma_pow10_add(k, e);
            lemma_pow10_add(e, 0);
            lemma_pow10_mono(k + e, 9);
            lemma_pow10_values();
            assert(v * pow10(e) < pow10(k) * pow10(e)) by (nonlinear_arith)
                requires
                    0 <= v < pow10(k),
                    pow10(e) >= 1,
            ;
        }
    }
}

/// One to nine digits after a decimal point stand for the number they spell
/// in billionths of a second: each digit, leading zeros included, is one
/// decimal place.
pub proof fn lemma_fraction_digits(f: Seq<char>)
    requires
        all_digits(f),
        1 <= f.len() <= 9,
    ensures
        spec_fraction_nanos(f) matches Ok(n) && n as int == digits_value(f) * pow10(
            (9 - f.len()) as nat,
        ),
        digits_value(f) * pow10((9 - f.len()) as nat) < 1_000_000_000,
{
    assert(is_digit(f[0]));
    assert(unsigned_body(f) == f);
    lemma_digits_value_nonneg(f);
    lemma_pow10_mono(f.len(), 9);
    lemma_pow10_values();
    lemma_fraction_nanos_bound(f);
}

/// The nanoseconds that the digits after a decimal point stand for.
pub fn fraction_nanos(f: &str) -> (r: Result<u32, SecondsStrError>)
    ensures
        r == spec_fraction_nanos(f@),
        r matches Ok(n) ==> n < NANOS_PER_SEC,
{
    proof {
        lemma_fraction_nanos_bound(f@);
        lemma_parse_unsigned_range(f@, u32::MAX as int);
    }
    let len = f.unicode_len();
    if len > 9 {
        return Err(SecondsStrError::TooPrecise);
    }
    match parse_u32(f) {
        Some(v) => {
            let p = pow10_u32((9 - len) as u32);
            let ghost sv = parse_unsigned(f@, u32::MAX as int)->0;
            assert(0 <= sv <= u32::MAX);
            assert(v == sv);
            assert(v * p < 1_000_000_000);
            Ok(v * p)
        },
        None => Err(SecondsStrError::InvalidValue),
    }
}

} // verus!
