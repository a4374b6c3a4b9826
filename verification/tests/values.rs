use chrono::DateTime;
use group::io::value::{ColumnValue, Timestamp, MAX_SECS, MIN_SECS, NANOS_PER_SEC};

#[test]
fn display_text_of_every_kind_of_value() {
    assert_eq!(ColumnValue::Integer(0).to_string(), "0");
    assert_eq!(ColumnValue::Integer(1203).to_string(), "1203");
    assert_eq!(ColumnValue::Integer(-45).to_string(), "-45");
    assert_eq!(ColumnValue::Integer(i64::MIN).to_string(), "-9223372036854775808");
    assert_eq!(ColumnValue::Boolean(true).to_string(), "+");
    assert_eq!(ColumnValue::Boolean(false).to_string(), "-");
    assert_eq!(ColumnValue::String(String::from("as it is")).to_string(), "as it is");
    assert_eq!(ColumnValue::Absent.to_string(), "");
}

#[test]
fn display_text_of_an_instant_is_its_time_of_day() {
    let at = |secs: i64, nanos: u32| ColumnValue::DateTime(Timestamp::new(secs, nanos).unwrap());
    assert_eq!(at(0, 0).to_string(), "00:00:00.000");
    assert_eq!(at(1_641_343_803, 432_000_000).to_string(), "00:50:03.432");
    assert_eq!(at(1_641_343_803, 432_999_999).to_string(), "00:50:03.432");
    assert_eq!(at(86_399, 999_999_999).to_string(), "23:59:59.999");
    assert_eq!(at(-1, 5_000_000).to_string(), "23:59:59.005");
    assert_eq!(at(3_600 * 13 + 60 * 7 + 9, 0).to_string(), "13:07:09.000");
    assert_eq!(at(MIN_SECS, 0).to_string(), "00:00:00.000");
    assert_eq!(at(MAX_SECS, 1_000_000).to_string(), "23:59:59.001");
}

#[test]
fn timestamps_hold_what_the_calendar_can() {
    assert!(Timestamp::new(MIN_SECS, 0).is_some());
    assert!(Timestamp::new(MAX_SECS, NANOS_PER_SEC - 1).is_some());
    assert!(Timestamp::new(MIN_SECS - 1, 0).is_none());
    assert!(Timestamp::new(MAX_SECS + 1, 0).is_none());
    assert!(Timestamp::new(0, NANOS_PER_SEC).is_none());
    assert!(DateTime::from_timestamp(MIN_SECS, 0).is_some());
    assert!(DateTime::from_timestamp(MIN_SECS - 1, 0).is_none());
    assert!(DateTime::from_timestamp(MAX_SECS, NANOS_PER_SEC - 1).is_some());
    assert!(DateTime::from_timestamp(MAX_SECS + 1, 0).is_none());
    let t = Timestamp::new(12, 34).unwrap();
    assert_eq!(t.secs(), 12);
    assert_eq!(t.nanos(), 34);
}

#[test]
fn timestamps_compare_and_add_by_their_instant() {
    let early = Timestamp::new(-5, 999_999_999).unwrap();
    let late = Timestamp::new(-4, 0).unwrap();
    assert!(early.le(&late));
    assert!(!late.le(&early));
    assert!(early.le(&early));
    assert_eq!(early.nanos_until(&late), 1);
    assert_eq!(early.checked_add_nanos(1), Some(late));
    assert_eq!(
        early.checked_add_nanos(2_500_000_002),
        Some(Timestamp::new(-2, 500_000_001).unwrap())
    );
    assert_eq!(Timestamp::new(MAX_SECS, 0).unwrap().checked_add_nanos(NANOS_PER_SEC as u128), None);
    assert_eq!(
        Timestamp::new(MAX_SECS, 0).unwrap().checked_add_nanos(999_999_999),
        Timestamp::new(MAX_SECS, 999_999_999)
    );
    assert_eq!(early.checked_add_nanos(u128::MAX), None);
    assert_eq!(
        Timestamp::new(MIN_SECS, 0).unwrap().nanos_until(&Timestamp::new(MAX_SECS, 999_999_999).unwrap()),
        ((MAX_SECS - MIN_SECS) as u128) * 1_000_000_000 + 999_999_999
    );
}

#[test]
fn values_are_equal_when_kind_and_content_are() {
    assert_eq!(ColumnValue::Absent, ColumnValue::Absent);
    assert_ne!(ColumnValue::Absent, ColumnValue::String(String::new()));
    assert_ne!(ColumnValue::Integer(1), ColumnValue::Boolean(true));
    assert_ne!(ColumnValue::Integer(1), ColumnValue::Integer(2));
    assert_eq!(ColumnValue::String(String::from("a")).clone(), ColumnValue::String(String::from("a")));
    assert_ne!(
        ColumnValue::DateTime(Timestamp::new(1, 0).unwrap()),
        ColumnValue::DateTime(Timestamp::new(0, 1).unwrap())
    );
}
