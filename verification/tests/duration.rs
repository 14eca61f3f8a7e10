use serde_with::de::{
    array_from_iterator, ArrayError, DeserializeAsWrap, DurationVisitiorFlexible, NegativeDuration,
    SeqReader,
};
use serde_with::utils::SecondsStrError;
use serde_with::ser::SerializeAsWrap;
use serde_with::{Bytes, DisplayFromStr, DurationSeconds};

#[test]
fn std_duration_from_strings() {
    let v = DurationVisitiorFlexible;
    assert_eq!(v.visit_str("1"), Ok((1, 0)));
    assert_eq!(v.visit_str("0.5"), Ok((0, 500_000_000)));
    assert_eq!(v.visit_str("1478563200.123"), Ok((1478563200, 123_000_000)));
    assert_eq!(v.visit_str("1.000000001"), Ok((1, 1)));
    assert_eq!(v.visit_str("1.0000000001"), Err(SecondsStrError::TooPrecise));
    assert_eq!(v.visit_str("-1"), Err(SecondsStrError::InvalidValue));
    assert_eq!(v.visit_str("a"), Err(SecondsStrError::InvalidValue));
    assert_eq!(v.visit_str("1.2.3"), Err(SecondsStrError::InvalidValue));
    assert_eq!(v.visit_str("1."), Err(SecondsStrError::InvalidValue));
    assert_eq!(v.visit_str(""), Err(SecondsStrError::InvalidValue));
    // The whole seconds are checked before the number of fraction digits.
    assert_eq!(v.visit_str("x.1234567890"), Err(SecondsStrError::InvalidValue));
}

#[test]
fn std_duration_from_integers() {
    let v = DurationVisitiorFlexible;
    assert_eq!(v.visit_i64(5), Ok((5, 0)));
    assert_eq!(v.visit_i64(0), Ok((0, 0)));
    assert_eq!(v.visit_i64(-1), Err(NegativeDuration::Negative));
    assert_eq!(v.visit_u64(u64::MAX), (u64::MAX, 0));
}

#[test]
fn arrays_from_elements() {
    let ok: Vec<Result<u8, &str>> = vec![Ok(1), Ok(2), Ok(3)];
    assert_eq!(array_from_iterator(ok, 2), Ok(vec![1, 2]));
    let ok: Vec<Result<u8, &str>> = vec![Ok(1), Ok(2)];
    assert_eq!(array_from_iterator(ok, 2), Ok(vec![1, 2]));
    let short: Vec<Result<u8, &str>> = vec![Ok(1)];
    assert_eq!(array_from_iterator(short, 3), Err(ArrayError::InvalidLength(1)));
    let bad: Vec<Result<u8, &str>> = vec![Ok(1), Err("bad"), Ok(3)];
    assert_eq!(array_from_iterator(bad, 3), Err(ArrayError::Element("bad")));
    let bad_late: Vec<Result<u8, &str>> = vec![Ok(1), Ok(2), Err("late")];
    assert_eq!(array_from_iterator(bad_late, 2), Ok(vec![1, 2]));
    let none: Vec<Result<u8, &str>> = vec![];
    assert_eq!(array_from_iterator(none, 0), Ok(vec![]));
}

#[test]
fn byte_arrays_need_exact_length() {
    assert_eq!(Bytes::deserialize_array(b"abc", 3), Ok(b"abc".to_vec()));
    assert_eq!(Bytes::deserialize_array(b"abc", 4), Err(3));
    assert_eq!(Bytes::deserialize_array(b"", 0), Ok(vec![]));
}

#[test]
fn wrappers_hold_their_value() {
    let x = 42u32;
    let w = SerializeAsWrap::<u32, DisplayFromStr>::new(&x);
    assert_eq!(*w.value, 42);
    let d = DeserializeAsWrap::<String, DisplayFromStr>::new("v".to_string());
    assert_eq!(d.into_inner(), "v");
}

#[test]
fn test_duration_seconds() {
    // (secs, nanos) of zero, one second and half a second.
    let zero = (0u64, 0u32);
    let one_second = (1u64, 0u32);
    let half_second = (0u64, 500_000_000u32);
    let int = |d: (u64, u32)| DurationSeconds::<u64, ()>::serialize_as(d.0, d.1);
    assert_eq!(int(zero), 0);
    assert_eq!(int(one_second), 1);
    assert_eq!(int(half_second), 1);
    let string = |d: (u64, u32)| DurationSeconds::<String, ()>::serialize_std_as(d.0, d.1);
    assert_eq!(string(zero), "0");
    assert_eq!(string(one_second), "1");
    assert_eq!(string(half_second), "1");
    let v = DurationVisitiorFlexible;
    assert_eq!(v.visit_str("0.5"), Ok(half_second));
    assert_eq!(v.visit_str("1"), Ok(one_second));
    assert_eq!(v.visit_str("0"), Ok(zero));
    assert_eq!(v.visit_str("a"), Err(SecondsStrError::InvalidValue));
    assert_eq!(v.visit_i64(-1), Err(NegativeDuration::Negative));
    assert_eq!(v.visit_u64(1), one_second);
}

#[test]
fn test_duration_seconds_with_frac() {
    let v = DurationVisitiorFlexible;
    assert_eq!(v.visit_str("1"), Ok((1, 0)));
    assert_eq!(v.visit_str("0"), Ok((0, 0)));
    assert_eq!(v.visit_str("0.5"), Ok((0, 500_000_000)));
    assert_eq!(v.visit_str("a"), Err(SecondsStrError::InvalidValue));
    assert_eq!(v.visit_i64(-1), Err(NegativeDuration::Negative));
}

#[test]
fn std_seconds_rounding_and_read_back() {
    assert_eq!(DurationSeconds::<u64, ()>::serialize_as(1, 499_999_999), 1);
    assert_eq!(DurationSeconds::<u64, ()>::serialize_as(1, 500_000_000), 2);
    assert_eq!(DurationSeconds::<u64, ()>::serialize_as(u64::MAX, 499_999_999), u64::MAX);
    let written = DurationSeconds::<String, ()>::serialize_std_as(41, 999_999_999);
    assert_eq!(written, "42");
    assert_eq!(DurationVisitiorFlexible.visit_str(&written), Ok((42, 0)));
}

#[test]
fn sequences_read_in_order() {
    let mut reader = SeqReader::with_size_hint(Some(1_000_000));
    assert!(reader.step(Some(3u8)));
    assert!(reader.step(Some(1u8)));
    assert!(!reader.step(None));
    assert_eq!(reader.finish(), vec![3, 1]);
    let empty: SeqReader<u8> = SeqReader::with_size_hint(None);
    assert_eq!(empty.finish(), Vec::<u8>::new());
}

#[test]
fn sequences_stop_at_the_first_failing_element() {
    let mut reader: SeqReader<u8> = SeqReader::with_size_hint(Some(2));
    assert_eq!(reader.step_element::<&str>(Some(Ok(7))), Ok(true));
    assert_eq!(reader.step_element(Some(Err("bad"))), Err("bad"));
    assert_eq!(reader.step_element::<&str>(None), Ok(false));
    assert_eq!(reader.finish(), vec![7]);
}
