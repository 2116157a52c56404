use std::time::Duration;

use bbn::date_time::DateTime;
use bbn::date_time::ParseDateTimeError;
use bbn::date_time::MAX_UNIX_TIMESTAMP_MS;
use bbn::stamp::ErrorKind;

#[test]
fn test_from_unix_timestamp_as_millis_to_string() {
    let dt = DateTime::from_unix_timestamp_as_millis(1612369038500).unwrap();
    assert_eq!(dt.to_string(), "2021-02-03T16:17:18.500Z");
}

#[test]
fn test_parse_utc_to_timestamp() {
    let dt: DateTime = "2021-02-03T16:17:18.500Z".parse().unwrap();
    assert_eq!(dt.unix_timestamp_as_millis(), 1612369038500);
}

#[test]
fn test_parse_positive_offset() {
    let dt: DateTime = "2021-02-04T01:17:18.500+09:00".parse().unwrap();
    assert_eq!(dt.unix_timestamp_as_millis(), 1612369038500);
    assert_eq!(dt.to_string(), "2021-02-03T16:17:18.500Z");
}

#[test]
fn test_parse_negative_offset() {
    let dt: DateTime = "2021-02-03T11:17:18.500-05:00".parse().unwrap();
    assert_eq!(dt.unix_timestamp_as_millis(), 1612369038500);
}

#[test]
fn test_roundtrip_with_millis() {
    let given_ms: i64 = 1612369038123;
    let dt = DateTime::from_unix_timestamp_as_millis(given_ms).unwrap();
    let s = dt.to_string();
    let parsed: DateTime = s.parse().unwrap();
    assert_eq!(parsed.unix_timestamp_as_millis(), given_ms);
}

#[test]
fn test_roundtrip_zero_millis() {
    let dt = DateTime::from_unix_timestamp_as_millis(1612369038000).unwrap();
    assert_eq!(dt.to_string(), "2021-02-03T16:17:18.000Z");
    let parsed: DateTime = "2021-02-03T16:17:18.000Z".parse().unwrap();
    assert_eq!(parsed.unix_timestamp_as_millis(), 1612369038000);
}

#[test]
fn test_reject_no_dot_at_position_19() {
    assert!("2021-02-03T16:17:18_500Z".parse::<DateTime>().is_err());
}

#[test]
fn test_reject_short_millis() {
    assert!("2021-02-03T16:17:18.50Z".parse::<DateTime>().is_err());
}

#[test]
fn test_reject_long_millis() {
    assert!("2021-02-03T16:17:18.5000Z".parse::<DateTime>().is_err());
}

#[test]
fn test_reject_invalid_tz_suffix() {
    assert!("2021-02-03T16:17:18.500X".parse::<DateTime>().is_err());
}

#[test]
fn test_epoch() {
    let dt = DateTime::from_unix_timestamp_as_millis(0).unwrap();
    assert_eq!(dt.to_string(), "1970-01-01T00:00:00.000Z");
    assert_eq!(dt.unix_timestamp_as_millis(), 0);
}

#[test]
fn test_negative_timestamp_rejected() {
    assert!(DateTime::from_unix_timestamp_as_millis(-1).is_err());
    assert!(DateTime::from_unix_timestamp_as_millis(-1000).is_err());
}

#[test]
fn test_max_boundary() {
    let dt = DateTime::from_unix_timestamp_as_millis(MAX_UNIX_TIMESTAMP_MS).unwrap();
    assert_eq!(dt.to_string(), "9999-12-31T23:59:59.999Z");
}

#[test]
fn test_over_max_rejected() {
    assert!(DateTime::from_unix_timestamp_as_millis(MAX_UNIX_TIMESTAMP_MS + 1).is_err());
}

#[test]
fn test_add_duration() {
    let dt = DateTime::from_unix_timestamp_as_millis(1000).unwrap();
    let result = (dt + Duration::from_millis(500)).unwrap();
    assert_eq!(result.unix_timestamp_as_millis(), 1500);
}

#[test]
fn test_sub_duration() {
    let dt = DateTime::from_unix_timestamp_as_millis(1500).unwrap();
    let result = (dt - Duration::from_millis(500)).unwrap();
    assert_eq!(result.unix_timestamp_as_millis(), 1000);
}

#[test]
fn test_add_duration_overflow_returns_err() {
    let dt = DateTime::from_unix_timestamp_as_millis(MAX_UNIX_TIMESTAMP_MS).unwrap();
    assert!((dt + Duration::from_millis(1)).is_err());
}

#[test]
fn test_sub_duration_underflow_returns_err() {
    let dt = DateTime::from_unix_timestamp_as_millis(0).unwrap();
    assert!((dt - Duration::from_millis(1)).is_err());
}

#[test]
fn test_add_duration_with_micros_returns_err() {
    let dt = DateTime::from_unix_timestamp_as_millis(1000).unwrap();
    assert!((dt + Duration::from_micros(500)).is_err());
}

#[test]
fn test_sub_duration_with_nanos_returns_err() {
    let dt = DateTime::from_unix_timestamp_as_millis(1000).unwrap();
    assert!((dt - Duration::from_nanos(1)).is_err());
}

#[test]
fn test_add_duration_millis_boundary_ok() {
    let dt = DateTime::from_unix_timestamp_as_millis(0).unwrap();
    let result = (dt + Duration::from_millis(1)).unwrap();
    assert_eq!(result.unix_timestamp_as_millis(), 1);
}

#[test]
fn test_duration_with_mixed_micros_returns_err() {
    let dt = DateTime::from_unix_timestamp_as_millis(1000).unwrap();
    assert!((dt + Duration::from_micros(1001)).is_err());
}

#[test]
fn test_from_unix_timestamp_as_millis_and_display() {
    let dt = DateTime::from_unix_timestamp_as_millis(1612369038500).unwrap();
    assert_eq!(dt.to_string(), "2021-02-03T16:17:18.500Z");
}

#[test]
fn test_from_unix_timestamp_as_millis_returns_err_for_out_of_range() {
    assert!(DateTime::from_unix_timestamp_as_millis(i64::MAX).is_err());
    assert!(DateTime::from_unix_timestamp_as_millis(-1).is_err());
}

#[test]
fn test_parse_utc_string() {
    let dt: DateTime = "2021-02-03T16:17:18.500Z".parse().unwrap();
    assert_eq!(dt.unix_timestamp_as_millis(), 1612369038500);
}

#[test]
fn test_parse_positive_timezone_offset() {
    let dt: DateTime = "2021-02-04T01:17:18.500+09:00".parse().unwrap();
    assert_eq!(dt.to_string(), "2021-02-03T16:17:18.500Z");
}

#[test]
fn test_parse_negative_timezone_offset() {
    let dt: DateTime = "2021-02-03T11:17:18.500-05:00".parse().unwrap();
    assert_eq!(dt.to_string(), "2021-02-03T16:17:18.500Z");
}

#[test]
fn test_display_always_utc_with_z() {
    let dt = DateTime::from_unix_timestamp_as_millis(0).unwrap();
    let s = dt.to_string();
    assert!(s.ends_with('Z'));
    assert_eq!(s, "1970-01-01T00:00:00.000Z");
}

#[test]
fn test_roundtrip_via_string() {
    let given = DateTime::from_unix_timestamp_as_millis(1700000000999).unwrap();
    let s = given.to_string();
    let parsed: DateTime = s.parse().unwrap();
    assert_eq!(given, parsed);
}

#[test]
fn test_parse_error_type() {
    let err = "invalid".parse::<DateTime>().unwrap_err();
    assert_eq!(err, ParseDateTimeError { kind: ErrorKind::Format });
    assert!(!err.to_string().is_empty());
}

#[test]
fn test_reject_missing_millis_digits() {
    assert!("2021-02-03T16:17:18.50Z".parse::<DateTime>().is_err());
}

#[test]
fn test_reject_extra_millis_digits() {
    assert!("2021-02-03T16:17:18.5000Z".parse::<DateTime>().is_err());
}

#[test]
fn test_reject_no_fractional_seconds() {
    assert!("2021-02-03T16:17:18Z".parse::<DateTime>().is_err());
}

#[test]
fn test_ordering() {
    let a = DateTime::from_unix_timestamp_as_millis(1000).unwrap();
    let b = DateTime::from_unix_timestamp_as_millis(2000).unwrap();
    assert!(a < b);
    assert_eq!(a, a);
}

#[test]
fn test_clone_and_copy() {
    let dt = DateTime::from_unix_timestamp_as_millis(0).unwrap();
    let cloned = dt.clone();
    let copied = dt;
    assert_eq!(dt, cloned);
    assert_eq!(dt, copied);
}

#[test]
fn date_time_test_add_duration() {
    let dt: DateTime = "2021-02-03T16:17:18.500Z".parse().unwrap();
    let result = (dt + Duration::from_secs(60)).unwrap();
    assert_eq!(result.to_string(), "2021-02-03T16:18:18.500Z");
}

#[test]
fn date_time_test_sub_duration() {
    let dt: DateTime = "2021-02-03T16:17:18.500Z".parse().unwrap();
    let result = (dt - Duration::from_secs(60)).unwrap();
    assert_eq!(result.to_string(), "2021-02-03T16:16:18.500Z");
}

#[test]
fn test_sub_duration_below_epoch_returns_err() {
    let dt = DateTime::from_unix_timestamp_as_millis(0).unwrap();
    assert!((dt - Duration::from_millis(1)).is_err());
}

#[test]
fn test_parse_before_epoch_rejected() {
    assert!("1969-12-31T23:59:59.000Z".parse::<DateTime>().is_err());
}

#[test]
fn date_time_test_add_duration_with_micros_returns_err() {
    let dt = DateTime::from_unix_timestamp_as_millis(1000).unwrap();
    assert!((dt + Duration::from_micros(500)).is_err());
}

#[test]
fn date_time_test_sub_duration_with_nanos_returns_err() {
    let dt = DateTime::from_unix_timestamp_as_millis(1000).unwrap();
    assert!((dt - Duration::from_nanos(1)).is_err());
}
