use std::str::FromStr;
use std::time::Duration;

use bbn::data::date::Date;
use bbn::date_time::duration_as_millis_exact;
use bbn::date_time::millis_exact;
use bbn::date_time::DateTime;
use bbn::date_time::ParseDateTimeError;
use bbn::stamp::format_stamp;
use bbn::stamp::parse_stamp;
use bbn::stamp::ErrorKind;
use bbn::stamp::Precision;
use bbn::stamp::MAX_MILLIS;
use bbn::stamp::MAX_SECONDS;

/// What `chrono` reads from a text that has the fraction of three digits and
/// the offset at their places, in milliseconds.
fn reference_millis(s: &str) -> Option<i64> {
    if s.len() < 24 || s.as_bytes()[19] != b'.' {
        return None;
    }
    if !s.as_bytes()[20..23].iter().all(|b| b.is_ascii_digit()) {
        return None;
    }
    if !s.is_char_boundary(23) {
        return None;
    }
    let zone = &s[23..];
    if !(zone == "Z" || (zone.len() == 6 && (zone.starts_with('+') || zone.starts_with('-')))) {
        return None;
    }
    let parsed = chrono::DateTime::parse_from_rfc3339(s).ok()?;
    let ms = parsed.timestamp_millis();
    if ms < 0 || ms > MAX_MILLIS {
        return None;
    }
    Some(ms)
}

fn corpus() -> Vec<String> {
    let dates = [
        "1970-01-01", "1969-12-31", "0000-01-01", "0000-02-29", "0001-02-29", "1900-02-29",
        "2000-02-29", "2021-02-03", "2021-02-29", "2021-04-31", "2021-13-01", "2021-00-10",
        "2021-01-00", "2021-12-32", "9999-12-31", "2024-02-29", "2021-1-01", "20210-01-01",
    ];
    let separators = ["T", "t", " ", "_", ""];
    let times = [
        "00:00:00", "16:17:18", "23:59:59", "23:59:60", "12:30:60", "24:00:00", "12:60:00",
        "12:00:61", "1:00:00", "12-00-00",
    ];
    let fractions = [".000", ".500", ".999", ".50", ".5000", "", ",500", ".5a0"];
    let zones = [
        "Z", "z", "+00:00", "-00:00", "+09:00", "-05:00", "+23:59", "-23:59", "+24:00", "+09:60",
        "+0900", "+09", "", "X", "+9:00", " +09:00",
    ];
    let mut all = Vec::new();
    for d in dates {
        for sep in separators {
            all.push(format!("{}{}16:17:18.500Z", d, sep));
        }
        for t in times {
            all.push(format!("{}T{}.500Z", d, t));
            all.push(format!("{}T{}.500+09:00", d, t));
        }
        for z in zones {
            all.push(format!("{}T23:59:59.999{}", d, z));
            all.push(format!("{}T00:00:00.000{}", d, z));
        }
    }
    for f in fractions {
        for z in zones {
            all.push(format!("2021-02-03T16:17:18{}{}", f, z));
        }
    }
    all.push("invalid".to_string());
    all.push("".to_string());
    all.push("2021-02-03T16:17:18.500Ｚ".to_string());
    all.push("２021-02-03T16:17:18.500Z".to_string());
    all
}

#[test]
fn reading_agrees_with_chrono() {
    for s in corpus() {
        let found = DateTime::from_str(&s).ok().map(|d| d.unix_timestamp_as_millis());
        assert_eq!(found, reference_millis(&s), "{:?}", s);
    }
}

#[test]
fn writing_agrees_with_chrono() {
    let values = [
        0,
        1,
        999,
        1_000,
        86_399_999,
        86_400_000,
        951_782_399_999,
        951_782_400_000,
        951_868_800_000,
        1_612_369_038_500,
        1_700_000_000_999,
        4_107_542_400_000,
        MAX_MILLIS - 1,
        MAX_MILLIS,
    ];
    for ms in values {
        let dt = DateTime::from_unix_timestamp_as_millis(ms).unwrap();
        let expected = chrono::DateTime::from_timestamp_millis(ms)
            .unwrap()
            .format("%Y-%m-%dT%H:%M:%S%.3fZ")
            .to_string();
        assert_eq!(dt.to_string(), expected);
        assert_eq!(DateTime::from_str(&expected).unwrap(), dt);
    }
}

#[test]
fn every_day_is_written_as_chrono_writes_it() {
    let mut seconds: i64 = 0;
    let step: i64 = 86_400 * 97 + 3_601;
    while seconds <= MAX_SECONDS {
        let expected = chrono::DateTime::from_timestamp(seconds, 0)
            .unwrap()
            .format("%Y-%m-%dT%H:%M:%SZ")
            .to_string();
        assert_eq!(format_stamp(seconds, Precision::Seconds), expected);
        assert_eq!(parse_stamp(&expected, Precision::Seconds), Ok(seconds));
        seconds += step;
    }
}

#[test]
fn precision_rejection() {
    assert_eq!(parse_stamp("2021-02-03T16:17:18.50Z", Precision::Millis), Err(ErrorKind::Format));
    assert_eq!(parse_stamp("2021-02-03T16:17:18.5000Z", Precision::Millis), Err(ErrorKind::Format));
    assert_eq!(parse_stamp("2021-02-03T16:17:18Z", Precision::Millis), Err(ErrorKind::Format));
    assert_eq!(parse_stamp("2021-02-03T16:17:18.500Z", Precision::Seconds), Err(ErrorKind::Format));
    assert_eq!(parse_stamp("2021-02-03T16:17:18.000Z", Precision::Seconds), Err(ErrorKind::Format));
    assert_eq!(parse_stamp("2021-02-03T16:17:18.500Z", Precision::Millis), Ok(1612369038500));
    assert_eq!(parse_stamp("2021-02-03T16:17:18Z", Precision::Seconds), Ok(1612369038));
}

#[test]
fn offset_normalization() {
    let a = parse_stamp("2021-02-04T01:17:18+09:00", Precision::Seconds).unwrap();
    let b = parse_stamp("2021-02-03T16:17:18Z", Precision::Seconds).unwrap();
    assert_eq!(a, b);
    assert_eq!(format_stamp(a, Precision::Seconds), "2021-02-03T16:17:18Z");
    assert_eq!(format_stamp(b, Precision::Seconds), "2021-02-03T16:17:18Z");
    assert_eq!(parse_stamp("2021-02-03T11:17:18-05:00", Precision::Seconds), Ok(b));
    assert_eq!(parse_stamp("2021-02-03T16:17:18-00:00", Precision::Seconds), Ok(b));
}

#[test]
fn range_boundaries() {
    assert_eq!(format_stamp(0, Precision::Seconds), "1970-01-01T00:00:00Z");
    assert_eq!(format_stamp(MAX_SECONDS, Precision::Seconds), "9999-12-31T23:59:59Z");
    assert_eq!(format_stamp(0, Precision::Millis), "1970-01-01T00:00:00.000Z");
    assert_eq!(format_stamp(MAX_MILLIS, Precision::Millis), "9999-12-31T23:59:59.999Z");
    assert_eq!(parse_stamp("1970-01-01T00:00:00Z", Precision::Seconds), Ok(0));
    assert_eq!(parse_stamp("9999-12-31T23:59:59Z", Precision::Seconds), Ok(MAX_SECONDS));
    assert_eq!(parse_stamp("1969-12-31T23:59:59Z", Precision::Seconds), Err(ErrorKind::Range));
    assert_eq!(parse_stamp("1970-01-01T00:00:00+00:01", Precision::Seconds), Err(ErrorKind::Range));
    assert_eq!(parse_stamp("9999-12-31T23:59:59-00:01", Precision::Seconds), Err(ErrorKind::Range));
    assert_eq!(parse_stamp("1970-01-01T08:59:59+09:00", Precision::Seconds), Err(ErrorKind::Range));
    assert_eq!(parse_stamp("1970-01-01T09:00:00+09:00", Precision::Seconds), Ok(0));
    assert_eq!(parse_stamp("9999-12-31T23:59:59.999Z", Precision::Millis), Ok(MAX_MILLIS));
    assert_eq!(parse_stamp("9999-12-31T23:59:60.000Z", Precision::Millis), Err(ErrorKind::Range));
    assert_eq!(parse_stamp("0000-01-01T00:00:00.000Z", Precision::Millis), Err(ErrorKind::Range));
    assert_eq!(
        DateTime::from_unix_timestamp_as_millis(-1),
        Err(ParseDateTimeError { kind: ErrorKind::Range })
    );
    assert_eq!(
        DateTime::from_unix_timestamp_as_millis(MAX_MILLIS + 1),
        Err(ParseDateTimeError { kind: ErrorKind::Range })
    );
}

#[test]
fn a_leap_second_is_the_next_second() {
    assert_eq!(
        parse_stamp("2016-12-31T23:59:60.250Z", Precision::Millis),
        parse_stamp("2017-01-01T00:00:00.250Z", Precision::Millis)
    );
    assert_eq!(parse_stamp("2016-12-31T23:59:60Z", Precision::Seconds), Err(ErrorKind::Format));
}

#[test]
fn duration_precision() {
    let dt = DateTime::from_unix_timestamp_as_millis(1000).unwrap();
    assert_eq!(
        dt + Duration::from_micros(500),
        Err(ParseDateTimeError { kind: ErrorKind::Precision })
    );
    assert_eq!(
        dt - Duration::from_nanos(999_999),
        Err(ParseDateTimeError { kind: ErrorKind::Precision })
    );
    assert_eq!((dt + Duration::from_millis(1)).unwrap().unix_timestamp_as_millis(), 1001);
    assert_eq!((dt - Duration::from_millis(1000)).unwrap().unix_timestamp_as_millis(), 0);
    assert_eq!(
        dt - Duration::from_millis(1001),
        Err(ParseDateTimeError { kind: ErrorKind::Range })
    );
    assert_eq!(
        dt + Duration::from_secs(u64::MAX),
        Err(ParseDateTimeError { kind: ErrorKind::Range })
    );
    assert_eq!((dt + Duration::new(2, 3_000_000)).unwrap().unix_timestamp_as_millis(), 3003);
}

#[test]
fn the_milliseconds_of_a_duration() {
    assert_eq!(duration_as_millis_exact(Duration::new(2, 3_000_000)), Ok(2003));
    assert_eq!(duration_as_millis_exact(Duration::from_millis(0)), Ok(0));
    assert_eq!(
        duration_as_millis_exact(Duration::new(2, 3_000_001)),
        Err(ParseDateTimeError { kind: ErrorKind::Precision })
    );
    assert_eq!(
        duration_as_millis_exact(Duration::from_secs(u64::MAX)),
        Err(ParseDateTimeError { kind: ErrorKind::Range })
    );
    assert_eq!(millis_exact(0, i64::MAX as u128), Ok(i64::MAX));
    assert_eq!(
        millis_exact(0, i64::MAX as u128 + 1),
        Err(ParseDateTimeError { kind: ErrorKind::Range })
    );
    assert_eq!(
        millis_exact(1, 5),
        Err(ParseDateTimeError { kind: ErrorKind::Precision })
    );
}

#[test]
fn dates_are_read_and_written() {
    let d = Date::from_str("2021-02-03").unwrap();
    assert_eq!((d.year(), d.month(), d.day_of_month()), (2021, 2, 3));
    assert_eq!(d.ordinal(), 20210203);
    assert_eq!(d.to_string(), "2021-02-03");
    assert_eq!(Date::from_ordinal(20210203), Some(d));
    assert_eq!(Date::from_ordinal(20210230), None);
    assert_eq!(Date::from_ordinal(100000101), None);
    assert_eq!(Date::new(2021, 2, 3), Some(d));
    assert_eq!(Date::new(2021, 2, 29), None);
    assert_eq!(Date::new(2020, 2, 29).unwrap().to_string(), "2020-02-29");
    assert_eq!(Date::new(1900, 2, 29), None);
    assert_eq!(Date::new(2000, 2, 29).unwrap().to_string(), "2000-02-29");
    assert_eq!(Date::new(0, 1, 1).unwrap().to_string(), "0000-01-01");
    assert_eq!(Date::new(10000, 1, 1), None);
    assert_eq!(Date::new(2021, 0, 1), None);
    assert_eq!(Date::new(2021, 13, 1), None);
    assert_eq!(Date::new(2021, 4, 31), None);
    assert_eq!(Date::new(2021, 4, 0), None);
    for text in ["2021-2-03", "2021-02-3", "21-02-03", "2021/02/03", "2021-02-03 ", "", "2021-02-30", "２021-02-03"] {
        assert_eq!(Date::from_str(text), None, "{:?}", text);
    }
    assert!(Date::from_str("2021-02-03").unwrap() < Date::from_str("2021-02-04").unwrap());
    assert!(Date::from_str("2021-12-31").unwrap() < Date::from_str("2022-01-01").unwrap());
}
