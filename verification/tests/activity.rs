use bartib::data::activity::{parse_timepart, resolve_timepart, Activity, ActivityError};
use bartib::data::timestamp::{Precision, Timestamp};
use chrono::{Datelike, Local, NaiveDateTime, Timelike};

fn stamp(text: &str) -> Timestamp {
    let t = NaiveDateTime::parse_from_str(text, "%Y-%m-%d %H:%M:%S").unwrap();
    Timestamp::new(t.and_utc().timestamp(), t.and_utc().timestamp_subsec_nanos()).unwrap()
}

fn civil(t: Timestamp) -> NaiveDateTime {
    chrono::DateTime::from_timestamp(t.seconds(), t.nanoseconds())
        .unwrap()
        .naive_utc()
}

#[test]
fn activity_start() {
    let t = Activity::start(
        "test project".to_string(),
        "test description".to_string(),
        None,
    );
    assert_eq!(t.description, "test description".to_string());
    assert_eq!(t.project, "test project".to_string());
    assert_eq!(t.end, None);
}

#[test]
fn start_at_a_given_time() {
    let time = stamp("2021-02-16 16:14:00");
    let t = Activity::start("p".to_string(), "d".to_string(), Some(time));
    assert_eq!(t.start, time);
    assert_eq!(t.end, None);
    assert!(!t.is_stopped());
}

#[test]
fn start_without_a_time_is_now() {
    let before = Local::now().naive_local();
    let t = Activity::start("p".to_string(), "d".to_string(), None);
    let after = Local::now().naive_local();
    assert!(before <= civil(t.start));
    assert!(civil(t.start) <= after);
}

#[test]
fn activity_stop() {
    let mut t = Activity::start(
        "test project".to_string(),
        "test description".to_string(),
        None,
    );
    t.stop(None);
    assert_ne!(t.end, None);
}

#[test]
fn stop_at_a_given_time() {
    let mut t = Activity::start(
        "p".to_string(),
        "d".to_string(),
        Some(stamp("2021-02-16 16:14:00")),
    );
    t.stop(Some(stamp("2021-02-16 18:23:00")));
    assert_eq!(t.end, Some(stamp("2021-02-16 18:23:00")));
    assert_eq!(t.start, stamp("2021-02-16 16:14:00"));
    assert_eq!(t.project, "p");
    assert_eq!(t.description, "d");
    assert!(t.is_stopped());
}

#[test]
fn activity_display() {
    let mut t = Activity::start(
        "test project| 1".to_string(),
        "test\\description".to_string(),
        None,
    );
    t.start = stamp("2021-02-16 16:14:00");
    assert_eq!(
        t.to_string(Precision::Minute),
        "2021-02-16 16:14 | test project\\| 1 | test\\\\description\n"
    );
    t.end = Some(stamp("2021-02-16 18:23:00"));
    assert_eq!(
        t.to_string(Precision::Minute),
        "2021-02-16 16:14 - 2021-02-16 18:23 | test project\\| 1 | test\\\\description\n"
    );
}

#[test]
fn display_with_seconds() {
    let mut t = Activity::start(
        "test project| 1".to_string(),
        "test\\description".to_string(),
        None,
    );
    t.start = stamp("2021-02-16 16:14:53");
    assert_eq!(
        t.to_string(Precision::Second),
        "2021-02-16 16:14:53 | test project\\| 1 | test\\\\description\n"
    );
    t.end = Some(stamp("2021-02-16 18:23:17"));
    assert_eq!(
        t.to_string(Precision::Second),
        "2021-02-16 16:14:53 - 2021-02-16 18:23:17 | test project\\| 1 | test\\\\description\n"
    );
}

#[test]
fn display_drops_what_is_finer_than_the_precision() {
    let mut t = Activity::start("p".to_string(), "d".to_string(), None);
    t.start = Timestamp::new(stamp("2021-02-16 16:14:53").seconds(), 999_999_999).unwrap();
    assert_eq!(t.to_string(Precision::Minute), "2021-02-16 16:14 | p | d\n");
    assert_eq!(t.to_string(Precision::Second), "2021-02-16 16:14:53 | p | d\n");
}

#[test]
fn activity_from_str_running_activity() {
    let t = Activity::from_str(
        "2021-02-16 16:14 | test project | test description",
        Precision::Minute,
    )
    .unwrap();

    assert_eq!(civil(t.start).date().year(), 2021);
    assert_eq!(civil(t.start).date().month(), 2);
    assert_eq!(civil(t.start).date().day(), 16);

    assert_eq!(civil(t.start).time().hour(), 16);
    assert_eq!(civil(t.start).time().minute(), 14);

    assert_eq!(t.description, "test description".to_string());
    assert_eq!(t.project, "test project".to_string());
    assert_eq!(t.end, None);
}

#[test]
fn from_str_running_activity_with_seconds() {
    let t = Activity::from_str(
        "2021-02-16 16:14:53 | test project | test description",
        Precision::Second,
    )
    .unwrap();

    assert_eq!(civil(t.start).date().year(), 2021);
    assert_eq!(civil(t.start).date().month(), 2);
    assert_eq!(civil(t.start).date().day(), 16);

    assert_eq!(civil(t.start).time().hour(), 16);
    assert_eq!(civil(t.start).time().minute(), 14);
    assert_eq!(civil(t.start).time().second(), 53);

    assert_eq!(t.description, "test description".to_string());
    assert_eq!(t.project, "test project".to_string());
    assert_eq!(t.end, None);
}

#[test]
fn activity_from_str_running_activity_no_description() {
    let t = Activity::from_str("2021-02-16 16:14 | test project", Precision::Minute).unwrap();

    assert_eq!(civil(t.start).date().year(), 2021);
    assert_eq!(civil(t.start).date().month(), 2);
    assert_eq!(civil(t.start).date().day(), 16);

    assert_eq!(civil(t.start).time().hour(), 16);
    assert_eq!(civil(t.start).time().minute(), 14);

    assert_eq!(t.description, String::new());
    assert_eq!(t.project, "test project".to_string());
    assert_eq!(t.end, None);
}

#[test]
fn from_str_running_activity_no_description_with_seconds() {
    let t = Activity::from_str("2021-02-16 16:14:53 | test project", Precision::Second).unwrap();

    assert_eq!(civil(t.start).time().hour(), 16);
    assert_eq!(civil(t.start).time().minute(), 14);
    assert_eq!(civil(t.start).time().second(), 53);

    assert_eq!(t.description, String::new());
    assert_eq!(t.project, "test project".to_string());
    assert_eq!(t.end, None);
}

#[test]
fn activity_from_str_stopped_activity() {
    let t = Activity::from_str(
        "2021-02-16 16:14 - 2021-02-16 18:23 | test project | test description",
        Precision::Minute,
    )
    .unwrap();

    assert_ne!(t.end, None);

    let end = civil(t.end.unwrap());

    assert_eq!(end.date().year(), 2021);
    assert_eq!(end.date().month(), 2);
    assert_eq!(end.date().day(), 16);

    assert_eq!(end.time().hour(), 18);
    assert_eq!(end.time().minute(), 23);
}

#[test]
fn from_str_stopped_activity_with_seconds() {
    let t = Activity::from_str(
        "2021-02-16 16:14:53 - 2021-02-16 18:23:17 | test project | test description",
        Precision::Second,
    )
    .unwrap();

    let end = civil(t.end.unwrap());

    assert_eq!(end.date().year(), 2021);
    assert_eq!(end.date().month(), 2);
    assert_eq!(end.date().day(), 16);

    assert_eq!(end.time().hour(), 18);
    assert_eq!(end.time().minute(), 23);
    assert_eq!(end.time().second(), 17);
}

#[test]
fn activity_from_str_escaped_chars() {
    let t = Activity::from_str(
        "2021-02-16 16:14 - 2021-02-16 18:23 | test project\\| 1 | test\\\\description",
        Precision::Minute,
    )
    .unwrap();

    assert_eq!(t.project, "test project| 1");
    assert_eq!(t.description, "test\\description");
}

#[test]
fn from_str_escaped_chars_with_seconds() {
    let t = Activity::from_str(
        "2021-02-16 16:14:53 - 2021-02-16 18:23:17 | test project\\| 1 | test\\\\description",
        Precision::Second,
    )
    .unwrap();

    assert_eq!(t.project, "test project| 1");
    assert_eq!(t.description, "test\\description");
}

#[test]
fn activity_string_roundtrip() {
    let mut t = Activity::start(
        "ex\\ample\\\\pro|ject".to_string(),
        "e\\\\xam|||ple tas\t\t\nk".to_string(),
        None,
    );
    t.stop(None);
    let t2 = Activity::from_str(t.to_string(Precision::Minute).as_str(), Precision::Minute).unwrap();

    assert_eq!(
        civil(t.start)
            .with_second(0)
            .unwrap()
            .with_nanosecond(0)
            .unwrap(),
        civil(t2.start)
    );
    assert_eq!(
        civil(t.end.unwrap())
            .with_second(0)
            .unwrap()
            .with_nanosecond(0)
            .unwrap(),
        civil(t2.end.unwrap())
    );

    assert_eq!(t.project, t2.project);
    assert_eq!(t.description, t2.description);
}

#[test]
fn string_roundtrip_with_seconds() {
    let mut t = Activity::start(
        "ex\\ample\\\\pro|ject".to_string(),
        "e\\\\xam|||ple tas\t\t\nk".to_string(),
        None,
    );
    t.stop(None);
    let t2 = Activity::from_str(t.to_string(Precision::Second).as_str(), Precision::Second).unwrap();

    assert_eq!(civil(t.start).with_nanosecond(0).unwrap(), civil(t2.start));
    assert_eq!(
        civil(t.end.unwrap()).with_nanosecond(0).unwrap(),
        civil(t2.end.unwrap())
    );

    assert_eq!(t.project, t2.project);
    assert_eq!(t.description, t2.description);
}

#[test]
fn roundtrip_gives_every_field_back() {
    for precision in [Precision::Minute, Precision::Second] {
        for project in ["", "p", "a|b", "a\\b", "\\", "|", "\\|", "|\\", "a\\\\|b", "x y"] {
            for description in ["", "d", "||", "\\\\", "tab\tin the middle", "\\|\\|"] {
                for end in [None, Some(stamp("2021-02-17 00:00:00"))] {
                    let a = Activity {
                        start: stamp("2021-02-16 16:14:00"),
                        end,
                        project: project.to_string(),
                        description: description.to_string(),
                    };
                    let (b, warnings) = Activity::parse(a.to_string(precision).as_str(), precision);
                    let b = b.unwrap();
                    assert_eq!(warnings, 0);
                    assert_eq!(a.start, b.start);
                    assert_eq!(a.end, b.end);
                    assert_eq!(a.project, b.project);
                    assert_eq!(a.description, b.description);
                }
            }
        }
    }
}

#[test]
fn roundtrip_at_the_ends_of_the_calendar() {
    for seconds in [
        bartib::data::timestamp::MIN_SECONDS,
        bartib::data::timestamp::MAX_SECONDS,
        -62_167_219_200,
        -62_167_219_260,
        253_402_300_800,
    ] {
        let a = Activity {
            start: Timestamp::new(seconds, 0).unwrap(),
            end: None,
            project: "p".to_string(),
            description: "d".to_string(),
        };
        let b = Activity::from_str(a.to_string(Precision::Second).as_str(), Precision::Second).unwrap();
        assert_eq!(a.start, b.start);
    }
}

#[test]
fn white_space_at_the_ends_of_a_field_is_lost() {
    let a = Activity {
        start: stamp("2021-02-16 16:14:00"),
        end: None,
        project: " p ".to_string(),
        description: "d\n".to_string(),
    };
    let b = Activity::from_str(a.to_string(Precision::Minute).as_str(), Precision::Minute).unwrap();
    assert_eq!(b.project, "p");
    assert_eq!(b.description, "d");
}

#[test]
fn activity_from_str_errors() {
    let t = Activity::from_str("2021 test project", Precision::Minute);
    assert!(matches!(t, Err(ActivityError::GeneralParseError)));

    let t = Activity::from_str("asb - 2021- | project", Precision::Minute);
    assert!(matches!(t, Err(ActivityError::DateTimeParseError)));
}

#[test]
fn from_str_errors_with_seconds() {
    let t = Activity::from_str("2021 test project", Precision::Second);
    assert!(matches!(t, Err(ActivityError::GeneralParseError)));

    let t = Activity::from_str("asb - 2021- | project", Precision::Second);
    assert!(matches!(t, Err(ActivityError::DateTimeParseError)));
}

#[test]
fn from_str_more_errors() {
    assert!(matches!(
        Activity::from_str("", Precision::Minute),
        Err(ActivityError::GeneralParseError)
    ));
    assert!(matches!(
        Activity::from_str("   ", Precision::Minute),
        Err(ActivityError::GeneralParseError)
    ));
    // an escaped pipe separates nothing
    assert!(matches!(
        Activity::from_str("2021-02-16 16:14 \\| project", Precision::Minute),
        Err(ActivityError::GeneralParseError)
    ));
    // the end is no time
    assert!(matches!(
        Activity::from_str("2021-02-16 16:14 - later | project", Precision::Minute),
        Err(ActivityError::DateTimeParseError)
    ));
    // a time that does not exist
    assert!(matches!(
        Activity::from_str("2021-02-30 16:14 | project", Precision::Minute),
        Err(ActivityError::DateTimeParseError)
    ));
}

#[test]
fn from_str_takes_the_first_three_segments_and_the_first_two_times() {
    let t = Activity::from_str(
        "2021-02-16 16:14 - 2021-02-16 18:23 - whatever | p | d | more | and more",
        Precision::Minute,
    )
    .unwrap();
    assert_eq!(t.start, stamp("2021-02-16 16:14:00"));
    assert_eq!(t.end, Some(stamp("2021-02-16 18:23:00")));
    assert_eq!(t.project, "p");
    assert_eq!(t.description, "d");
}

#[test]
fn from_str_empty_project() {
    let t = Activity::from_str("2021-02-16 16:14 |  ", Precision::Minute).unwrap();
    assert_eq!(t.project, "");
    assert_eq!(t.description, "");
    // the segment behind the last pipe is there though it is empty
    let t = Activity::from_str("2021-02-16 16:14 |", Precision::Minute).unwrap();
    assert_eq!(t.project, "");
    assert_eq!(t.description, "");
    let t = Activity::from_str("2021-02-16 16:14 | p |", Precision::Minute).unwrap();
    assert_eq!(t.project, "p");
    assert_eq!(t.description, "");
}

#[test]
fn a_line_reads_as_its_trimmed_text_reads() {
    for text in [
        "2021-02-16 16:14 |  ",
        "  2021-02-16 16:14 | p | d\t",
        " 2021-02-16 16:14 - 2021-02-16 17:00 | p \\",
        "\t2021-02-16 16:14:31 | p |  ",
        "   ",
        " no pipe ",
        " - 2021-02-16 16:14 | p",
        " - | p ",
        "| ",
        " |",
    ] {
        for precision in [Precision::Minute, Precision::Second] {
            let whole = Activity::parse(text, precision);
            let trimmed = Activity::parse(text.trim(), precision);
            assert_eq!(whole.1, trimmed.1);
            match (whole.0, trimmed.0) {
                (Ok(a), Ok(b)) => {
                    assert_eq!(a.start, b.start);
                    assert_eq!(a.end, b.end);
                    assert_eq!(a.project, b.project);
                    assert_eq!(a.description, b.description);
                }
                (Err(a), Err(b)) => assert_eq!(a, b),
                _ => panic!("the two read differently: {text:?}"),
            }
        }
    }
}

#[test]
fn from_str_second_precision_encountered_when_minute_precision_expected() {
    let t = Activity::from_str(
        "2021-02-16 16:14:53 - 2021-02-16 18:23:17 | test project | test description",
        Precision::Minute,
    )
    .unwrap();

    assert_eq!(civil(t.start).date().year(), 2021);
    assert_eq!(civil(t.start).date().month(), 2);
    assert_eq!(civil(t.start).date().day(), 16);

    assert_eq!(civil(t.start).time().hour(), 16);
    assert_eq!(civil(t.start).time().minute(), 15);
    assert_eq!(civil(t.start).time().second(), 0);

    assert_ne!(t.end, None);

    let end = civil(t.end.unwrap());

    assert_eq!(end.date().year(), 2021);
    assert_eq!(end.date().month(), 2);
    assert_eq!(end.date().day(), 16);

    assert_eq!(end.time().hour(), 18);
    assert_eq!(end.time().minute(), 23);
    assert_eq!(end.time().second(), 0);
}

#[test]
fn from_str_minute_precision_encountered_when_second_precision_expected() {
    let t = Activity::from_str(
        "2021-02-16 16:14 - 2021-02-16 18:23 | test project | test description",
        Precision::Second,
    )
    .unwrap();

    assert_eq!(civil(t.start).date().year(), 2021);
    assert_eq!(civil(t.start).date().month(), 2);
    assert_eq!(civil(t.start).date().day(), 16);

    assert_eq!(civil(t.start).time().hour(), 16);
    assert_eq!(civil(t.start).time().minute(), 14);
    assert_eq!(civil(t.start).time().second(), 0);

    assert_ne!(t.end, None);

    let end = civil(t.end.unwrap());

    assert_eq!(end.date().year(), 2021);
    assert_eq!(end.date().month(), 2);
    assert_eq!(end.date().day(), 16);

    assert_eq!(end.time().hour(), 18);
    assert_eq!(end.time().minute(), 23);
    assert_eq!(end.time().second(), 0);
}

#[test]
fn precision_fallback_rounds_and_warns() {
    let (t, warnings) = Activity::parse("2021-02-16 16:14:53 | p | d", Precision::Minute);
    let t = t.unwrap();
    assert_eq!(t.start, stamp("2021-02-16 16:15:00"));
    assert_eq!(t.project, "p");
    assert_eq!(t.description, "d");
    assert_eq!(warnings, 1);

    let (t, warnings) = Activity::parse(
        "2021-02-16 16:14:29 - 2021-02-16 16:14:30 | p | d",
        Precision::Minute,
    );
    let t = t.unwrap();
    assert_eq!(t.start, stamp("2021-02-16 16:14:00"));
    assert_eq!(t.end, Some(stamp("2021-02-16 16:15:00")));
    assert_eq!(warnings, 2);

    let (t, warnings) = Activity::parse(
        "2021-02-16 16:14 - 2021-02-16 16:15:59 | p | d",
        Precision::Minute,
    );
    assert!(t.is_ok());
    assert_eq!(warnings, 1);

    let (t, warnings) = Activity::parse("2021-02-16 16:14 | p | d", Precision::Minute);
    assert!(t.is_ok());
    assert_eq!(warnings, 0);
}

#[test]
fn precision_fallback_warns_even_where_the_line_fails() {
    let (t, warnings) = Activity::parse("2021-02-16 16:14:53 - never | p | d", Precision::Minute);
    assert!(matches!(t, Err(ActivityError::DateTimeParseError)));
    assert_eq!(warnings, 1);

    // the last half minute of the calendar has no minute to be rounded to
    let (t, warnings) = Activity::parse("+262142-12-31 23:59:30 | p | d", Precision::Minute);
    assert!(matches!(t, Err(ActivityError::DateTimeParseError)));
    assert_eq!(warnings, 1);

    // the end is not read where the start is no time
    let (t, warnings) = Activity::parse("never - 2021-02-16 16:14:53 | p | d", Precision::Minute);
    assert!(matches!(t, Err(ActivityError::DateTimeParseError)));
    assert_eq!(warnings, 0);
}

#[test]
fn rounding_before_the_epoch() {
    let t = Activity::from_str("1969-12-31 23:59:30 | p", Precision::Minute).unwrap();
    assert_eq!(t.start, Timestamp::new(0, 0).unwrap());
    let t = Activity::from_str("1969-12-31 23:59:29 | p", Precision::Minute).unwrap();
    assert_eq!(t.start, Timestamp::new(-60, 0).unwrap());
}

#[test]
fn parse_timepart_trims_and_falls_back() {
    assert_eq!(
        parse_timepart("  2021-02-16 16:14\t", Precision::Minute),
        (Ok(stamp("2021-02-16 16:14:00")), false)
    );
    assert_eq!(
        parse_timepart("2021-02-16 16:14:31", Precision::Minute),
        (Ok(stamp("2021-02-16 16:15:00")), true)
    );
    assert_eq!(
        parse_timepart("2021-02-16 16:14", Precision::Second),
        (Ok(stamp("2021-02-16 16:14:00")), true)
    );
    assert_eq!(
        parse_timepart("2021-02-16", Precision::Second),
        (Err(ActivityError::DateTimeParseError), false)
    );
}

#[test]
fn resolve_timepart_decides_by_what_was_read() {
    let exact = stamp("2021-02-16 16:14:00");
    let other = stamp("2021-02-16 16:14:53");
    let rounded = stamp("2021-02-16 16:15:00");
    assert_eq!(
        resolve_timepart(Some(exact), None, None, Precision::Minute),
        (Ok(exact), false)
    );
    assert_eq!(
        resolve_timepart(Some(exact), Some(other), Some(rounded), Precision::Minute),
        (Ok(exact), false)
    );
    assert_eq!(
        resolve_timepart(None, Some(other), Some(rounded), Precision::Minute),
        (Ok(rounded), true)
    );
    assert_eq!(
        resolve_timepart(None, Some(other), None, Precision::Minute),
        (Err(ActivityError::DateTimeParseError), true)
    );
    assert_eq!(
        resolve_timepart(None, Some(other), None, Precision::Second),
        (Ok(exact), true)
    );
    assert_eq!(
        resolve_timepart(None, None, None, Precision::Second),
        (Err(ActivityError::DateTimeParseError), false)
    );
}

#[test]
fn error_messages() {
    assert_eq!(
        ActivityError::DateTimeParseError.to_string(),
        "could not parse date or time of activity"
    );
    assert_eq!(
        ActivityError::GeneralParseError.to_string(),
        "could not parse activity"
    );
}

#[test]
fn duration_of_a_stopped_activity() {
    let a = Activity {
        start: stamp("2021-09-01 15:00:00"),
        end: Some(stamp("2021-09-02 15:20:01")),
        project: "p".to_string(),
        description: "d".to_string(),
    };
    let d = a.get_duration();
    assert_eq!(d.seconds, 86_400 + 20 * 60 + 1);
    assert_eq!(d.subsec_nanos, 0);
    assert_eq!(a.duration_at(stamp("2000-01-01 00:00:00")), d);
}

#[test]
fn duration_of_a_running_activity() {
    let a = Activity {
        start: stamp("2021-09-01 15:00:00"),
        end: None,
        project: "p".to_string(),
        description: "d".to_string(),
    };
    let d = a.duration_at(Timestamp::new(stamp("2021-09-01 15:00:10").seconds(), 500).unwrap());
    assert_eq!(d.seconds, 10);
    assert_eq!(d.subsec_nanos, 500);
    let d = a.duration_at(Timestamp::new(stamp("2021-09-01 14:59:59").seconds(), 500_000_000).unwrap());
    assert_eq!(d.seconds, 0);
    assert_eq!(d.subsec_nanos, -500_000_000);
    assert!(d.has_negative_millis());
    assert!(a.get_duration().seconds > 0);
}

#[test]
fn clone_keeps_every_field() {
    let a = Activity {
        start: stamp("2021-09-01 15:00:00"),
        end: Some(stamp("2021-09-01 16:00:00")),
        project: "p".to_string(),
        description: "d".to_string(),
    };
    let b = a.clone();
    assert_eq!(a.start, b.start);
    assert_eq!(a.end, b.end);
    assert_eq!(a.project, b.project);
    assert_eq!(a.description, b.description);
}

#[test]
fn written_times_have_the_shape_that_the_line_format_needs() {
    for seconds in [
        bartib::data::timestamp::MIN_SECONDS,
        bartib::data::timestamp::MAX_SECONDS,
        -62_167_219_200 - 86_400 * 366,
        -62_167_219_200,
        -1,
        0,
        59,
        1_613_492_040,
        253_402_300_799,
        253_402_300_800,
    ] {
        for nanos in [0, 999_999_999] {
            for precision in [Precision::Minute, Precision::Second] {
                let a = Activity {
                    start: Timestamp::new(seconds, nanos).unwrap(),
                    end: None,
                    project: "p".to_string(),
                    description: "d".to_string(),
                };
                let line = a.to_string(precision);
                let time = line.strip_suffix(" | p | d\n").unwrap();
                assert!(!time.is_empty());
                assert!(time.chars().all(|c| c.is_ascii_digit() || "-+: ".contains(c)));
                assert!(!time.starts_with(' ') && !time.ends_with(' '));
                assert!(!time.contains(" -"));
                // and the time is read back, without what is finer than the precision
                let b = Activity::from_str(&line, precision).unwrap();
                let expected = match precision {
                    Precision::Minute => Timestamp::new(seconds - seconds.rem_euclid(60), 0).unwrap(),
                    Precision::Second => Timestamp::new(seconds, 0).unwrap(),
                };
                assert_eq!(b.start, expected);
            }
        }
    }
}

#[test]
fn leap_seconds_are_written_and_read() {
    let leap = Timestamp::new(1_435_708_799, 1_000_000_000).unwrap();
    let a = Activity {
        start: leap,
        end: None,
        project: "p".to_string(),
        description: "d".to_string(),
    };
    assert_eq!(a.to_string(Precision::Second), "2015-06-30 23:59:60 | p | d\n");
    let b = Activity::from_str("2015-06-30 23:59:60 | p | d", Precision::Second).unwrap();
    assert_eq!(b.start, leap);
    assert_eq!(a.to_string(Precision::Minute), "2015-06-30 23:59 | p | d\n");
    // read where the log keeps minutes, the leap second is rounded with the minute it ends
    let c = Activity::parse("2015-06-30 23:59:60 | p | d", Precision::Minute);
    assert!(c.0.is_ok());
    assert_eq!(c.1, 1);
}

#[test]
fn precision_fallback_rounds_far_from_the_epoch() {
    for (with_seconds, rounded) in [
        ("3021-02-16 16:14:53", "3021-02-16 16:15:00"),
        ("3021-02-16 16:14:29", "3021-02-16 16:14:00"),
        ("3021-02-16 16:14:30", "3021-02-16 16:15:00"),
        ("1677-09-21 00:12:43", "1677-09-21 00:13:00"),
        ("1677-09-21 00:12:44", "1677-09-21 00:13:00"),
        ("1600-01-01 00:00:29", "1600-01-01 00:00:00"),
        ("1600-01-01 00:00:30", "1600-01-01 00:01:00"),
        ("0001-01-01 23:59:59", "0001-01-02 00:00:00"),
        ("2262-04-11 23:47:16", "2262-04-11 23:47:00"),
        ("2262-04-11 23:47:17", "2262-04-11 23:47:00"),
        ("2262-04-11 23:47:46", "2262-04-11 23:48:00"),
        ("9999-12-31 23:59:59", "+10000-01-01 00:00:00"),
    ] {
        let line = format!("{with_seconds} | p | d");
        let (t, warnings) = Activity::parse(&line, Precision::Minute);
        let expected = NaiveDateTime::parse_from_str(rounded, "%Y-%m-%d %H:%M:%S").unwrap();
        assert_eq!(civil(t.unwrap().start), expected);
        assert_eq!(warnings, 1);
    }
    // the first and the last times of the calendar
    let (t, warnings) = Activity::parse("-262143-01-01 00:00:29 | p", Precision::Minute);
    assert_eq!(
        t.unwrap().start,
        Timestamp::new(bartib::data::timestamp::MIN_SECONDS, 0).unwrap()
    );
    assert_eq!(warnings, 1);
    let (t, warnings) = Activity::parse("+262142-12-31 23:59:29 | p", Precision::Minute);
    assert_eq!(
        t.unwrap().start,
        Timestamp::new(bartib::data::timestamp::MAX_SECONDS - 59, 0).unwrap()
    );
    assert_eq!(warnings, 1);
}

#[test]
fn the_line_of_an_activity_has_three_segments() {
    for project in ["", "p", "|", "a|b|", "\\", "|||"] {
        for description in ["", "d", "|", "\\|", "x\\"] {
            let a = Activity {
                start: stamp("2021-02-16 16:14:00"),
                end: Some(stamp("2021-02-16 17:14:00")),
                project: project.to_string(),
                description: description.to_string(),
            };
            let line = a.to_string(Precision::Minute);
            let segments = bartib::data::escaping::split_with_escaped_delimiter(&line).collect();
            assert_eq!(
                segments,
                vec![
                    "2021-02-16 16:14 - 2021-02-16 17:14 ".to_string(),
                    format!(" {project} "),
                    format!(" {description}\n"),
                ]
            );
        }
    }
}
