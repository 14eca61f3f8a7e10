//! De/Serialization of byte vectors as hexadecimal strings.

use vstd::prelude::*;
use vstd::string::StringSliceAdditionalSpecFns;
use vstd::utf8::{encode_utf8, is_ascii_chars, is_ascii_chars_encode_utf8};

verus! {

/// Serialize bytes as a string of lowercase hex digits; deserialize a string
/// of hex digits, in either case, into bytes.
#[derive(Copy, Clone, Debug, Default)]
pub struct Hex;

/// Why a string is not hex-encoded bytes.
#[derive(Debug, Clone, Copy, PartialEq, Eq)]
pub enum HexError {
    /// The character at byte position `index` is not a hex digit.
    InvalidHexCharacter { c: char, index: usize },
    /// The string has an odd number of bytes.
    OddLength,
    /// The string does not fit a container of fixed length.
    InvalidStringLength,
}

/// The lowercase hex digit, as a byte, of a value below 16.
pub open spec fn lower_hex_byte(v: int) -> u8 {
    if v < 10 {
        (v + 48) as u8
    } else {
        (v + 87) as u8
    }
}

/// Whether the byte is a hex digit: `0`-`9`, `a`-`f` or `A`-`F`.
pub open spec fn is_hex_byte(b: u8) -> bool {
    (48 <= b <= 57) || (65 <= b <= 70) || (97 <= b <= 102)
}

/// The value of a hex digit byte.
pub open spec fn hex_byte_value(b: u8) -> int {
    if b <= 57 {
        b - 48
    } else if b <= 70 {
        b - 55
    } else {
        b - 87
    }
}

/// The characters of the lowercase hex encoding of `data`: two digits per
/// byte, the high half first.
pub open spec fn spec_hex_encode(data: Seq<u8>) -> Seq<char> {
    Seq::new(
        2 * data.len(),
        |i: int|
            if i % 2 == 0 {
                lower_hex_byte((data[i / 2] / 16) as int) as char
            } else {
                lower_hex_byte((data[i / 2] % 16) as int) as char
            },
    )
}

/// The position of the first byte at or after `from` that is not a hex digit,
/// or the length of `s` when there is none.
pub open spec fn first_non_hex(s: Seq<u8>, from: int) -> int
    decreases s.len() - from,
{
    if from >= s.len() {
        s.len() as int
    } else if !is_hex_byte(s[from]) {
        from
    } else {
        first_non_hex(s, from + 1)
    }
}

/// The bytes that the hex string `s` (as bytes) stands for: an even number of
/// hex digits, two per byte, the high half first.
pub open spec fn spec_hex_decode(s: Seq<u8>) -> Result<Seq<u8>, HexError> {
    if s.len() % 2 != 0 {
        Err(HexError::OddLength)
    } else if first_non_hex(s, 0) < s.len() {
        let i = first_non_hex(s, 0);
        Err(HexError::InvalidHexCharacter { c: s[i] as char, index: i as usize })
    } else {
        Ok(
            Seq::new(
                s.len() / 2,
                |k: int| (hex_byte_value(s[2 * k]) * 16 + hex_byte_value(s[2 * k + 1])) as u8,
            ),
        )
    }
}

/// `hex::encode`: the lowercase hex digits of the bytes, two per byte, the
/// high half first.
#[verifier::external_body]
fn hex_encode(data: &[u8]) -> (s: String)
    ensures
        s@ == spec_hex_encode(data@),
{
    hex::encode(data)
}

/// `hex::decode`: the bytes that a string of hex digits stands for; the
/// string must have an even number of bytes, each of them a hex digit of
/// either case, else the error names the first fault.
#[verifier::external_body]
fn hex_decode(data: &str) -> (r: Result<Vec<u8>, HexError>)
    ensures
        match r {
            Ok(v) => spec_hex_decode(data.spec_bytes()) == Ok::<Seq<u8>, HexError>(v@),
            Err(e) => spec_hex_decode(data.spec_bytes()) == Err::<Seq<u8>, HexError>(e),
        },
{
    match hex::decode(data) {
        Ok(v) => Ok(v),
        Err(hex::FromHexError::InvalidHexCharacter { c, index }) => Err(
            HexError::InvalidHexCharacter { c, index },
        ),
        Err(hex::FromHexError::OddLength) => Err(HexError::OddLength),
        Err(hex::FromHexError::InvalidStringLength) => Err(HexError::InvalidStringLength),
    }
}

impl Hex {
    /// Serialize the bytes as lowercase hex digits.
    pub fn serialize_as(source: &Vec<u8>) -> (s: String)
        ensures
            s@ == spec_hex_encode(source@),
    {
        hex_encode(source.as_slice())
    }

    /// Deserialize a string of hex digits into bytes.
    pub fn deserialize_as(s: &str) -> (r: Result<Vec<u8>, HexError>)
        ensures
            match r {
                Ok(v) => spec_hex_decode(s.spec_bytes()) == Ok::<Seq<u8>, HexError>(v@),
                Err(e) => spec_hex_decode(s.spec_bytes()) == Err::<Seq<u8>, HexError>(e),
            },
    {
        hex_decode(s)
    }
}

/// The byte with an uppercase ASCII letter made lowercase.
pub open spec fn ascii_lower(b: u8) -> u8 {
    if 65 <= b <= 90 {
        (b + 32) as u8
    } else {
        b
    }
}

/// The bytes with every uppercase ASCII letter made lowercase.
pub open spec fn ascii_lowercase(s: Seq<u8>) -> Seq<u8> {
    s.map_values(|b: u8| ascii_lower(b))
}

/// Searching for a non-digit in a string of digits finds none.
proof fn lemma_first_non_hex_all(s: Seq<u8>, from: int)
    requires
        0 <= from,
        forall|i: int| from <= i < s.len() ==> is_hex_byte(#[trigger] s[i]),
    ensures
        first_non_hex(s, from) == s.len(),
    decreases s.len() - from,
{
    if from < s.len() {
        lemma_first_non_hex_all(s, from + 1);
    }
}

/// Where no position is reported, every byte from there on is a hex digit.
proof fn lemma_first_non_hex_none(s: Seq<u8>, from: int)
    requires
        0 <= from,
        first_non_hex(s, from) >= s.len(),
    ensures
        forall|i: int| from <= i < s.len() ==> is_hex_byte(#[trigger] s[i]),
    decreases s.len() - from,
{
    if from < s.len() {
        lemma_first_non_hex_none(s, from + 1);
    }
}

/// The lowercase digit of a hex digit's value is the digit made lowercase.
proof fn lemma_hex_digit_lower(b: u8)
    requires
        is_hex_byte(b),
    ensures
        0 <= hex_byte_value(b) < 16,
        lower_hex_byte(hex_byte_value(b)) == ascii_lower(b),
{
}

/// Encoding what a hex string decodes to gives back the string, in lowercase.
pub proof fn lemma_hex_encode_decode(s: Seq<u8>, data: Seq<u8>)
    requires
        spec_hex_decode(s) == Ok::<Seq<u8>, HexError>(data),
    ensures
        encode_utf8(spec_hex_encode(data)) == ascii_lowercase(s),
{
    lemma_first_non_hex_none(s, 0);
    let chars = spec_hex_encode(data);
    assert(data.len() * 2 == s.len());
    assert forall|i: int| 0 <= i < chars.len() implies chars[i] == ascii_lower(s[i]) as char by {
        let k = i / 2;
        assert(0 <= k < data.len());
        let hi = hex_byte_value(s[2 * k]);
        let lo = hex_byte_value(s[2 * k + 1]);
        lemma_hex_digit_lower(s[2 * k]);
        lemma_hex_digit_lower(s[2 * k + 1]);
        assert(data[k] == (hi * 16 + lo) as u8);
        assert(data[k] / 16 == hi && data[k] % 16 == lo);
        if i % 2 == 0 {
            assert(i == 2 * k);
        } else {
            assert(i == 2 * k + 1);
        }
    }
    assert forall|i: int| 0 <= i < chars.len() implies '\0' <= #[trigger] chars[i] <= '\u{7f}' by {
        let b = data[i / 2];
        assert(b / 16 < 16 && b % 16 < 16);
    }
    assert(is_ascii_chars(chars));
    is_ascii_chars_encode_utf8(chars);
    let bytes = encode_utf8(chars);
    assert forall|i: int| 0 <= i < bytes.len() implies bytes[i] == ascii_lowercase(s)[i] by {
        assert(chars[i] as u8 == bytes[i]);
        assert(chars[i] == ascii_lower(s[i]) as char);
    }
    assert(bytes =~= ascii_lowercase(s));
}

/// Decoding the bytes of an encoding gives back the encoded bytes.
pub proof fn lemma_hex_decode_encode(data: Seq<u8>)
    ensures
        spec_hex_decode(encode_utf8(spec_hex_encode(data))) == Ok::<Seq<u8>, HexError>(data),
{
    let chars = spec_hex_encode(data);
    assert forall|i: int| 0 <= i < chars.len() implies '\0' <= #[trigger] chars[i] <= '\u{7f}' by {
        let b = data[i / 2];
        assert(b / 16 < 16 && b % 16 < 16);
    }
    assert(is_ascii_chars(chars));
    is_ascii_chars_encode_utf8(chars);
    let bytes = encode_utf8(chars);
    assert forall|i: int| 0 <= i < bytes.len() implies is_hex_byte(#[trigger] bytes[i]) by {
        assert(chars[i] as u8 == bytes[i]);
        let b = data[i / 2];
        assert(b / 16 < 16 && b % 16 < 16);
    }
    lemma_first_non_hex_all(bytes, 0);
    assert(bytes.len() % 2 == 0);
    let decoded = Seq::new(
        bytes.len() / 2,
        |k: int| (hex_byte_value(bytes[2 * k]) * 16 + hex_byte_value(bytes[2 * k + 1])) as u8,
    );
    assert forall|k: int| 0 <= k < data.len() implies decoded[k] == data[k] by {
        assert(chars[2 * k] as u8 == bytes[2 * k]);
        assert(chars[2 * k + 1] as u8 == bytes[2 * k + 1]);
        assert((2 * k) / 2 == k);
        assert((2 * k + 1) / 2 == k);
        assert((2 * k) % 2 == 0);
        assert((2 * k + 1) % 2 == 1);
        let b = data[k];
        assert(b == (b / 16) * 16 + b % 16);
    }
    assert(decoded =~= data);
}

} // verus!
