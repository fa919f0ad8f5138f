use bartib::data::timestamp::{Duration, Precision};
use bartib::view::format_util::{format_duration, number_text, push_digits, two_digit_text};

fn seconds(seconds: i128) -> Duration {
    Duration { seconds, subsec_nanos: 0 }
}

#[test]
fn durations_where_the_log_keeps_minutes() {
    let f = |s: i128| format_duration(&seconds(s), Precision::Minute);
    assert_eq!(f(0), "<1m");
    assert_eq!(f(59), "<1m");
    assert_eq!(f(60), "01m");
    assert_eq!(f(30 * 60), "30m");
    assert_eq!(f(3599), "59m");
    assert_eq!(f(3600), "1h 00m");
    assert_eq!(f(5 * 3600), "5h 00m");
    assert_eq!(f(10 * 3600 + 7 * 60 + 59), "10h 07m");
    assert_eq!(f(123 * 3600 + 45 * 60), "123h 45m");
    assert_eq!(f(-1), "<1m");
    assert_eq!(f(-3600), "<1m");
}

#[test]
fn durations_where_the_log_keeps_seconds() {
    let f = |s: i128| format_duration(&seconds(s), Precision::Second);
    assert_eq!(f(0), "00s");
    assert_eq!(f(7), "07s");
    assert_eq!(f(59), "59s");
    assert_eq!(f(60), "01m");
    assert_eq!(f(3600), "1h 00m");
    assert_eq!(f(-5), "-5s");
    assert_eq!(f(-65), "-5s");
    assert_eq!(f(-60), "00s");
    assert_eq!(f(-15), "-15s");
}

#[test]
fn durations_go_by_their_whole_seconds() {
    assert_eq!(
        format_duration(&Duration { seconds: 59, subsec_nanos: 999_999_999 }, Precision::Minute),
        "<1m"
    );
    assert_eq!(
        format_duration(&Duration { seconds: 59, subsec_nanos: 999_999_999 }, Precision::Second),
        "59s"
    );
}

#[test]
fn numbers_in_decimal() {
    assert_eq!(number_text(0), "0");
    assert_eq!(number_text(7), "7");
    assert_eq!(number_text(10), "10");
    assert_eq!(number_text(1234567890), "1234567890");
    assert_eq!(number_text(-1), "-1");
    assert_eq!(number_text(-120), "-120");
    assert_eq!(number_text(i128::MAX), i128::MAX.to_string());
    assert_eq!(number_text(i128::MIN), i128::MIN.to_string());
    assert_eq!(two_digit_text(0), "00");
    assert_eq!(two_digit_text(9), "09");
    assert_eq!(two_digit_text(10), "10");
    assert_eq!(two_digit_text(100), "100");
    assert_eq!(two_digit_text(-9), "-9");
    let mut text = "n=".to_string();
    push_digits(&mut text, u128::MAX);
    assert_eq!(text, format!("n={}", u128::MAX));
}
