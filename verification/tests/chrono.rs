use serde_with::chrono::datetime_utc_ts_seconds_from_any::{
    parse_timestamp_str, timestamp_from_i64, timestamp_from_str, timestamp_from_u64,
    TimestampError,
};
use serde_with::chrono::{
    duration_subsec_nanos, ChronoDuration, ChronoSecondsError, DurationVisitiorFlexible,
    SecondsOutOfRange,
};
use serde_with::utils::SecondsStrError;
use serde_with::DurationSeconds;

fn parts(d: chrono::Duration) -> ChronoDuration {
    ChronoDuration { secs: d.num_seconds(), nanos: d.subsec_nanos() }
}

#[test]
fn json_datetime_from_any_to_string_deserialization() {
    // Integers.
    for secs in [1_478_563_200i64, 0, -86000] {
        let dt = timestamp_from_i64(secs).unwrap();
        assert_eq!(dt.and_utc().timestamp(), secs);
        assert_eq!(dt.and_utc().timestamp_subsec_nanos(), 0);
    }
    // Strings holding numbers with a fraction; the fraction is added, also
    // after a negative number of seconds.
    assert_eq!(parse_timestamp_str("1478563200.123"), Ok((1_478_563_200, 123_000_000)));
    assert_eq!(parse_timestamp_str("0.000"), Ok((0, 0)));
    assert_eq!(parse_timestamp_str("-86000.999"), Ok((-86000, 999_000_000)));
    let dt = timestamp_from_str("-86000.999").unwrap();
    assert_eq!(dt.and_utc().timestamp(), -86000);
    assert_eq!(dt.and_utc().timestamp_subsec_nanos(), 999_000_000);
    let dt = timestamp_from_str("1478563200").unwrap();
    assert_eq!(dt.and_utc().timestamp(), 1_478_563_200);
}

#[test]
fn timestamp_errors() {
    assert_eq!(timestamp_from_str("abc").unwrap_err(), TimestampError::InvalidValue);
    assert_eq!(timestamp_from_str("1.2.3").unwrap_err(), TimestampError::InvalidValue);
    assert_eq!(timestamp_from_str("1.1234567890").unwrap_err(), TimestampError::TooPrecise);
    assert_eq!(timestamp_from_i64(i64::MAX).unwrap_err(), TimestampError::OutOfRange);
    assert_eq!(parse_timestamp_str("1.x"), Err(SecondsStrError::InvalidValue));
    // Values above `i64::MAX` are reinterpreted as negative seconds.
    let dt = timestamp_from_u64(u64::MAX).unwrap();
    assert_eq!(dt.and_utc().timestamp(), -1);
}

#[test]
fn test_chrono_duration_seconds() {
    let zero = chrono::Duration::zero();
    let one_second = chrono::Duration::seconds(1);
    let half_second = chrono::Duration::nanoseconds(500_000_000);
    let minus_one_second = zero - one_second;
    let minus_half_second = zero - half_second;
    let ser = |d: chrono::Duration| DurationSeconds::<i64, ()>::serialize_as(&parts(d));
    assert_eq!(ser(zero), 0);
    assert_eq!(ser(one_second), 1);
    assert_eq!(ser(minus_one_second), -1);
    assert_eq!(ser(half_second), 1);
    assert_eq!(ser(minus_half_second), -1);
    assert_eq!(ser(chrono::Duration::milliseconds(1499)), 1);
    assert_eq!(ser(chrono::Duration::milliseconds(-1499)), -1);
    assert_eq!(ser(chrono::Duration::milliseconds(-2500)), -3);
    let ser_str = |d: chrono::Duration| DurationSeconds::<String, ()>::serialize_as(&parts(d));
    assert_eq!(ser_str(zero), "0");
    assert_eq!(ser_str(minus_half_second), "-1");
    assert_eq!(ser_str(chrono::Duration::seconds(3600)), "3600");
}

#[test]
fn chrono_subsec_nanos() {
    assert_eq!(duration_subsec_nanos(parts(chrono::Duration::nanoseconds(1_500_000_000))), 500_000_000);
    assert_eq!(duration_subsec_nanos(parts(chrono::Duration::nanoseconds(-1_500_000_000))), 500_000_000);
    assert_eq!(duration_subsec_nanos(parts(chrono::Duration::seconds(7))), 0);
    assert!(parts(chrono::Duration::MAX).valid());
    assert!(parts(chrono::Duration::MIN).valid());
    assert!(!ChronoDuration { secs: 1, nanos: -1 }.valid());
}

#[test]
fn chrono_flexible_from_strings() {
    let v = DurationVisitiorFlexible;
    assert_eq!(v.visit_str("0.5"), Ok((0, 500_000_000)));
    // A negative whole number with a fraction counts from one second below.
    assert_eq!(v.visit_str("-0.5"), Ok((-1, 500_000_000)));
    assert_eq!(v.visit_str("-1.5"), Ok((-2, 500_000_000)));
    assert_eq!(v.visit_str("-1"), Ok((-1, 0)));
    assert_eq!(v.visit_str("1"), Ok((1, 0)));
    assert_eq!(v.visit_str("a"), Err(ChronoSecondsError::InvalidValue));
    assert_eq!(v.visit_str("1.1234567891"), Err(ChronoSecondsError::TooPrecise));
    assert_eq!(v.visit_u64(5), Ok(5));
    assert_eq!(v.visit_u64(u64::MAX), Err(SecondsOutOfRange));
    // What DurationSeconds<String> writes reads back as the rounded seconds.
    let written = DurationSeconds::<String, ()>::serialize_as(&parts(chrono::Duration::milliseconds(-2500)));
    assert_eq!(v.visit_str(&written), Ok((-3, 0)));
}

#[test]
fn test_chrono_duration_seconds_with_frac() {
    let v = DurationVisitiorFlexible;
    // (whole seconds, nanoseconds to add) of the flexibly read strings.
    assert_eq!(v.visit_str("1"), Ok((1, 0)));
    assert_eq!(v.visit_str("-1"), Ok((-1, 0)));
    assert_eq!(v.visit_str("0.5"), Ok((0, 500_000_000)));
    assert_eq!(v.visit_str("0"), Ok((0, 0)));
    assert_eq!(v.visit_str("a"), Err(ChronoSecondsError::InvalidValue));
    let half = chrono::Duration::nanoseconds(500_000_000);
    let (secs, nanos) = v.visit_str("-0.5").unwrap();
    let read = chrono::Duration::seconds(secs as i64) + chrono::Duration::nanoseconds(nanos as i64);
    assert_eq!(read, chrono::Duration::zero() - half);
}

#[test]
fn timestamp_strings_of_integers_agree_with_integers() {
    for secs in [0i64, 1, -1, 1_478_563_200, -86000] {
        assert_eq!(timestamp_from_str(&secs.to_string()), timestamp_from_i64(secs));
    }
}

#[test]
fn chrono_seconds_beyond_range_are_refused() {
    let v = DurationVisitiorFlexible;
    let max = chrono::Duration::MAX;
    let most: i64 = 9_223_372_036_854_775;
    assert_eq!(most, max.num_seconds());
    assert_eq!(v.visit_u64(10_000_000_000_000_000), Err(SecondsOutOfRange));
    assert_eq!(v.visit_u64(most as u64), Ok(most));
    assert_eq!(v.visit_u64(most as u64 + 1), Err(SecondsOutOfRange));
    assert_eq!(v.visit_i64(-most), Ok(-most));
    assert_eq!(v.visit_i64(-most - 1), Err(SecondsOutOfRange));
    assert_eq!(v.visit_i64(i64::MIN), Err(SecondsOutOfRange));
    // The whole seconds and the fraction together stay within chrono's range.
    let (secs, nanos) = v.visit_str("9223372036854775.807").unwrap();
    assert_eq!(chrono::Duration::new(secs, nanos), Some(max));
    assert_eq!(v.visit_str("9223372036854775.808"), Err(ChronoSecondsError::OutOfRange));
    // "-9223372036854775.5" counts half a second up from one second below.
    let (secs, nanos) = v.visit_str("-9223372036854775.5").unwrap();
    assert_eq!((secs, nanos), (-9_223_372_036_854_776, 500_000_000));
    assert!(chrono::Duration::new(secs, nanos).unwrap() >= chrono::Duration::MIN);
    assert_eq!(v.visit_str("-9223372036854775.1"), Err(ChronoSecondsError::OutOfRange));
    assert_eq!(v.visit_str("-9223372036854774.5"), Ok((-9223372036854775, 500_000_000)));
    assert_eq!(v.visit_str("9223372036854775807"), Err(ChronoSecondsError::OutOfRange));
}
