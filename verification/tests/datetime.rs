use std::str::FromStr;

use bbn::data::datetime::DateTime;
use bbn::data::timestamp::Timestamp;
use bbn::stamp::ErrorKind;
use bbn::stamp::MAX_SECONDS;

#[test]
fn test_local_from_timestamp_roundtrip() {
    let ts = Timestamp::try_from(1612369038_i64).unwrap();
    let dt = DateTime::local_from_timestamp(ts);
    assert_eq!(Timestamp::from(dt), ts);
}

#[test]
fn test_local_from_timestamp_seconds_precision() {
    let ts = Timestamp::try_from(1612369038_i64).unwrap();
    let dt = DateTime::local_from_timestamp(ts);
    assert_eq!(dt.nanosecond(), 0);
}

#[test]
fn test_local_from_timestamp_epoch() {
    let ts = Timestamp::try_from(0_i64).unwrap();
    let dt = DateTime::local_from_timestamp(ts);
    assert_eq!(Timestamp::from(dt), ts);
}

#[test]
fn test_local_from_timestamp_display_format() {
    let ts = Timestamp::try_from(1612369038_i64).unwrap();
    let dt = DateTime::local_from_timestamp(ts);
    let s = dt.to_string();
    assert!(s.len() == 20 || s.len() == 25);
    assert!(s.contains('T'));
    assert!(!s.contains('.'));
}

#[test]
fn string_conversion_test() {
    let f = <DateTime as FromStr>::from_str;
    let g = |dt: DateTime| dt.to_string();
    let s1 = "2021-02-03T16:17:18Z";
    let s2 = "2021-02-03T16:17:18+00:00";
    let s3 = "2021-02-03T16:17:18+09:00";
    assert!(f(s1).is_ok());
    assert!(f(s2).is_ok());
    assert_eq!(f(s1), f(s2));
    assert_eq!(f(s1).map(g), Ok(s1.to_string()));
    assert_eq!(f(s2).map(g), Ok(s1.to_string()));
    assert_eq!(f(s3).map(g), Ok("2021-02-03T07:17:18Z".to_string()));
}

#[test]
fn timestamp_conversion_test() {
    let f = |s| <DateTime as FromStr>::from_str(s).unwrap();
    let g = Timestamp::from;
    let s1 = "2021-02-03T16:17:18+00:00";
    let s2 = "2021-02-04T01:17:18+09:00";
    assert_eq!(g(f(s1)), Timestamp::try_from(1612369038).unwrap());
    assert_eq!(g(f(s1)), g(f(s2)));
}

#[test]
fn seconds_out_of_range_give_no_instant() {
    let first = DateTime::from_unix_timestamp(0).unwrap();
    assert_eq!(first.to_string(), "1970-01-01T00:00:00Z");
    let last = DateTime::from_unix_timestamp(MAX_SECONDS).unwrap();
    assert_eq!(last.to_string(), "9999-12-31T23:59:59Z");
    assert_eq!(last.timestamp().seconds(), 253_402_300_799);
    assert_eq!(DateTime::from_unix_timestamp(-1).unwrap_err().kind, ErrorKind::Range);
    assert_eq!(
        DateTime::from_unix_timestamp(MAX_SECONDS + 1).unwrap_err().kind,
        ErrorKind::Range
    );
    assert!(first < last);
    assert_eq!(
        DateTime::from_unix_timestamp(1612369038).unwrap().to_string(),
        "2021-02-03T16:17:18Z"
    );
}
