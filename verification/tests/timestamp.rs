use bartib::data::timestamp::{
    Date, Duration, Precision, Timestamp, MAX_DAYS, MAX_SECONDS, MIN_DAYS, MIN_SECONDS,
};
use chrono::{Datelike, NaiveDate, NaiveDateTime};

fn stamp(text: &str) -> Timestamp {
    let t = NaiveDateTime::parse_from_str(text, "%Y-%m-%d %H:%M:%S").unwrap();
    Timestamp::new(t.and_utc().timestamp(), t.and_utc().timestamp_subsec_nanos()).unwrap()
}

#[test]
fn the_bounds_are_those_of_chrono() {
    assert_eq!(NaiveDateTime::MIN.and_utc().timestamp(), MIN_SECONDS);
    assert_eq!(NaiveDateTime::MAX.and_utc().timestamp(), MAX_SECONDS);
    assert_eq!(NaiveDate::MIN.to_epoch_days(), MIN_DAYS);
    assert_eq!(NaiveDate::MAX.to_epoch_days(), MAX_DAYS);
    assert!(chrono::DateTime::from_timestamp(MIN_SECONDS, 0).is_some());
    assert!(chrono::DateTime::from_timestamp(MIN_SECONDS - 1, 0).is_none());
    assert!(chrono::DateTime::from_timestamp(MAX_SECONDS, 1_999_999_999).is_some());
    assert!(chrono::DateTime::from_timestamp(MAX_SECONDS + 1, 0).is_none());
}

#[test]
fn new_takes_what_is_within_the_calendar() {
    assert!(Timestamp::new(0, 0).is_some());
    assert!(Timestamp::new(MIN_SECONDS, 0).is_some());
    assert!(Timestamp::new(MAX_SECONDS, 999_999_999).is_some());
    assert!(Timestamp::new(MIN_SECONDS - 1, 0).is_none());
    assert!(Timestamp::new(MAX_SECONDS + 1, 0).is_none());
    assert!(Timestamp::new(i64::MIN, 0).is_none());
    assert!(Timestamp::new(i64::MAX, 0).is_none());
    let t = Timestamp::new(1_613_492_040, 42).unwrap();
    assert_eq!(t.seconds(), 1_613_492_040);
    assert_eq!(t.nanoseconds(), 42);
}

#[test]
fn new_takes_a_leap_second_in_the_last_second_of_a_minute() {
    assert!(Timestamp::new(59, 1_000_000_000).is_some());
    assert!(Timestamp::new(59, 1_999_999_999).is_some());
    assert!(Timestamp::new(59, 2_000_000_000).is_none());
    assert!(Timestamp::new(58, 1_000_000_000).is_none());
    assert!(Timestamp::new(0, 1_000_000_000).is_none());
    assert!(Timestamp::new(-1, 1_000_000_000).is_some());
    assert!(Timestamp::new(-2, 1_000_000_000).is_none());
    assert!(Timestamp::new(MAX_SECONDS, 1_000_000_000).is_some());
    for (secs, nanos) in [(59i64, 1_500_000_000u32), (-1, 1_000_000_000), (58, 1_000_000_000)] {
        assert_eq!(
            Timestamp::new(secs, nanos).is_some(),
            chrono::DateTime::from_timestamp(secs, nanos).is_some()
        );
    }
}

#[test]
fn earlier_by_seconds_then_by_nanoseconds() {
    let a = Timestamp::new(10, 5).unwrap();
    let b = Timestamp::new(10, 6).unwrap();
    let c = Timestamp::new(11, 0).unwrap();
    assert!(a.is_before(&b));
    assert!(b.is_before(&c));
    assert!(a.is_before(&c));
    assert!(!b.is_before(&a));
    assert!(!a.is_before(&a));
    assert!(Timestamp::new(-5, 0).unwrap().is_before(&Timestamp::new(-4, 0).unwrap()));
    assert!(a < b && b < c);
}

#[test]
fn truncate_to_minute_zeroes_the_seconds() {
    assert_eq!(
        stamp("2021-02-16 16:14:53").truncate_to_minute(),
        stamp("2021-02-16 16:14:00")
    );
    assert_eq!(
        Timestamp::new(-1, 999_999_999).unwrap().truncate_to_minute(),
        Timestamp::new(-60, 0).unwrap()
    );
    assert_eq!(
        Timestamp::new(-60, 0).unwrap().truncate_to_minute(),
        Timestamp::new(-60, 0).unwrap()
    );
    assert_eq!(
        Timestamp::new(59, 1_500_000_000).unwrap().truncate_to_minute(),
        Timestamp::new(0, 0).unwrap()
    );
    assert_eq!(
        Timestamp::new(MIN_SECONDS, 0).unwrap().truncate_to_minute(),
        Timestamp::new(MIN_SECONDS, 0).unwrap()
    );
}

#[test]
fn date_is_the_day_of_the_calendar() {
    assert_eq!(Timestamp::new(0, 0).unwrap().date().number(), 0);
    assert_eq!(Timestamp::new(86_399, 0).unwrap().date().number(), 0);
    assert_eq!(Timestamp::new(86_400, 0).unwrap().date().number(), 1);
    assert_eq!(Timestamp::new(-1, 0).unwrap().date().number(), -1);
    assert_eq!(Timestamp::new(-86_400, 0).unwrap().date().number(), -1);
    assert_eq!(Timestamp::new(-86_401, 0).unwrap().date().number(), -2);
    assert_eq!(Timestamp::new(MIN_SECONDS, 0).unwrap().date().number(), MIN_DAYS);
    assert_eq!(Timestamp::new(MAX_SECONDS, 0).unwrap().date().number(), MAX_DAYS);
    assert_eq!(
        stamp("2024-03-19 10:00:00").date().number(),
        NaiveDate::from_ymd_opt(2024, 3, 19).unwrap().to_epoch_days()
    );
}

#[test]
fn dates_within_the_calendar() {
    assert!(Date::new(0).is_some());
    assert!(Date::new(MIN_DAYS).is_some());
    assert!(Date::new(MAX_DAYS).is_some());
    assert!(Date::new(MIN_DAYS - 1).is_none());
    assert!(Date::new(MAX_DAYS + 1).is_none());
    assert_eq!(Date::new(19_801).unwrap().number(), 19_801);
}

#[test]
fn days_from_monday_agrees_with_chrono() {
    for days in [0, 1, 2, 3, 4, 5, 6, 7, -1, -2, -3, -4, -5, -6, -7, 19_801, MIN_DAYS, MAX_DAYS] {
        let expected = NaiveDate::from_epoch_days(days)
            .unwrap()
            .weekday()
            .num_days_from_monday();
        assert_eq!(Date::new(days).unwrap().days_from_monday(), expected as i32);
    }
    // the epoch was a Thursday
    assert_eq!(Date::new(0).unwrap().days_from_monday(), 3);
}

#[test]
fn signed_duration_since_is_the_difference() {
    let a = stamp("2021-09-01 15:00:00");
    let b = stamp("2021-09-02 16:21:01");
    assert_eq!(
        b.signed_duration_since(&a),
        Duration { seconds: 91_261, subsec_nanos: 0 }
    );
    assert_eq!(
        a.signed_duration_since(&b),
        Duration { seconds: -91_261, subsec_nanos: 0 }
    );
    assert_eq!(
        a.signed_duration_since(&a),
        Duration { seconds: 0, subsec_nanos: 0 }
    );
    let c = Timestamp::new(a.seconds(), 750_000_000).unwrap();
    let d = Timestamp::new(a.seconds() + 2, 250_000_000).unwrap();
    assert_eq!(
        d.signed_duration_since(&c),
        Duration { seconds: 1, subsec_nanos: 500_000_000 }
    );
    assert_eq!(
        c.signed_duration_since(&d),
        Duration { seconds: -1, subsec_nanos: -500_000_000 }
    );
    let longest = Timestamp::new(MAX_SECONDS, 999_999_999)
        .unwrap()
        .signed_duration_since(&Timestamp::new(MIN_SECONDS, 0).unwrap());
    assert_eq!(longest.seconds, i128::from(MAX_SECONDS - MIN_SECONDS));
    assert_eq!(longest.subsec_nanos, 999_999_999);
}

#[test]
fn negative_millis() {
    assert!(!Duration::zero().has_negative_millis());
    assert!(!Duration { seconds: 0, subsec_nanos: -999_999 }.has_negative_millis());
    assert!(Duration { seconds: 0, subsec_nanos: -1_000_000 }.has_negative_millis());
    assert!(Duration { seconds: -1, subsec_nanos: 0 }.has_negative_millis());
    assert!(!Duration { seconds: -2, subsec_nanos: i32::MAX }.has_negative_millis());
    assert!(Duration { seconds: -3, subsec_nanos: i32::MAX }.has_negative_millis());
    assert!(Duration { seconds: 2, subsec_nanos: i32::MIN }.has_negative_millis());
    assert!(!Duration { seconds: 3, subsec_nanos: i32::MIN }.has_negative_millis());
    assert!(!Duration { seconds: 1, subsec_nanos: 0 }.has_negative_millis());
    assert!(Duration { seconds: i128::MIN, subsec_nanos: 0 }.has_negative_millis());
    assert!(!Duration { seconds: i128::MAX, subsec_nanos: 0 }.has_negative_millis());
}

#[test]
fn formats_of_the_precisions() {
    assert_eq!(Precision::Minute.format(), "%F %R");
    assert_eq!(Precision::Second.format(), "%F %T");
    assert_eq!(Precision::Minute.time_format(), "%R");
    assert_eq!(Precision::Second.time_format(), "%T");
    assert_eq!(Precision::Minute.fallback(), Precision::Second);
    assert_eq!(Precision::Second.fallback(), Precision::Minute);
}
