use bartib::data::activity::{Activity, ActivityError};
use bartib::data::bartib_file::{get_file_content, write_to_file, Line, LineStatus};
use bartib::data::timestamp::{Precision, Timestamp};
use chrono::NaiveDateTime;

fn stamp(text: &str) -> Timestamp {
    let t = NaiveDateTime::parse_from_str(text, "%Y-%m-%d %H:%M:%S").unwrap();
    Timestamp::new(t.and_utc().timestamp(), t.and_utc().timestamp_subsec_nanos()).unwrap()
}

fn lines(texts: &[&str]) -> Vec<Line> {
    let texts: Vec<String> = texts.iter().map(|s| s.to_string()).collect();
    get_file_content(&texts, Precision::Minute)
}

#[test]
fn new_line_keeps_the_trimmed_text() {
    let line = Line::new("  2021-02-16 16:14 | p | d \t", 7, Precision::Minute);
    assert_eq!(line.plaintext, Some("2021-02-16 16:14 | p | d".to_string()));
    assert_eq!(line.line_number, Some(7));
    assert_eq!(line.status, LineStatus::Unchanged);
    let activity = line.activity.unwrap();
    assert_eq!(activity.start, stamp("2021-02-16 16:14:00"));
    assert_eq!(activity.end, None);
    assert_eq!(activity.project, "p");
    assert_eq!(activity.description, "d");
}

#[test]
fn new_line_that_holds_no_activity() {
    let line = Line::new("# a comment", 1, Precision::Minute);
    assert_eq!(line.plaintext, Some("# a comment".to_string()));
    assert_eq!(line.line_number, Some(1));
    assert_eq!(line.status, LineStatus::Unchanged);
    assert!(matches!(line.activity, Err(ActivityError::GeneralParseError)));

    let line = Line::new("soon | p", 2, Precision::Minute);
    assert!(matches!(line.activity, Err(ActivityError::DateTimeParseError)));
}

#[test]
fn the_text_that_a_line_keeps_reads_as_the_line() {
    // behind the pipe stands white space, or nothing: an empty project either way
    let line = Line::new("2021-02-16 16:14 | ", 1, Precision::Minute);
    assert_eq!(line.plaintext, Some("2021-02-16 16:14 |".to_string()));
    assert_eq!(line.activity.unwrap().project, "");
    let again = Line::new("2021-02-16 16:14 |", 1, Precision::Minute);
    assert_eq!(again.plaintext, Some("2021-02-16 16:14 |".to_string()));
    assert_eq!(again.activity.unwrap().project, "");
}

#[test]
fn a_written_file_reads_as_the_file_that_was_read() {
    let texts = [
        "  2021-02-16 16:14 | p | d  ",
        "2021-02-16 16:14 |  ",
        "\tnothing here ",
        "",
        " 2021-02-16 16:14:31 - 2021-02-16 17:00:29 | p\\| 1 | ",
        "later | p",
    ];
    let first = lines(&texts);
    let written = write_to_file(&first, Precision::Minute);
    let kept: Vec<&str> = written.lines().collect();
    assert_eq!(kept.len(), texts.len());
    let second = lines(&kept);
    for (a, b) in first.iter().zip(second.iter()) {
        assert_eq!(a.plaintext, b.plaintext);
        assert_eq!(a.line_number, b.line_number);
        assert_eq!(a.status, b.status);
        match (&a.activity, &b.activity) {
            (Ok(x), Ok(y)) => {
                assert_eq!(x.start, y.start);
                assert_eq!(x.end, y.end);
                assert_eq!(x.project, y.project);
                assert_eq!(x.description, y.description);
            }
            (Err(x), Err(y)) => assert_eq!(x, y),
            _ => panic!("the two files read differently"),
        }
    }
    assert_eq!(write_to_file(&second, Precision::Minute), written);
}

#[test]
fn line_for_an_activity_is_changed_from_the_start() {
    let activity = Activity::start("p".to_string(), "d".to_string(), Some(stamp("2021-02-16 16:14:00")));
    let line = Line::for_activity(activity);
    assert_eq!(line.plaintext, None);
    assert_eq!(line.line_number, None);
    assert_eq!(line.status, LineStatus::Changed);
    let activity = line.activity.unwrap();
    assert_eq!(activity.project, "p");
    assert_eq!(activity.description, "d");
    assert_eq!(activity.start, stamp("2021-02-16 16:14:00"));
}

#[test]
fn set_changed_is_idempotent() {
    let mut line = Line::new("2021-02-16 16:14 | p | d", 3, Precision::Minute);
    line.set_changed();
    assert_eq!(line.status, LineStatus::Changed);
    assert_eq!(line.plaintext, Some("2021-02-16 16:14 | p | d".to_string()));
    assert_eq!(line.line_number, Some(3));
    line.set_changed();
    assert_eq!(line.status, LineStatus::Changed);
    assert_eq!(line.plaintext, Some("2021-02-16 16:14 | p | d".to_string()));
    assert_eq!(line.line_number, Some(3));
    assert!(line.activity.is_ok());
}

#[test]
fn lines_are_numbered_from_one_in_file_order() {
    let content = lines(&[
        "2021-02-16 16:14 | p | d",
        "no activity",
        "",
        "2021-02-16 16:14 - 2021-02-16 17:14 | q",
        "later | p",
    ]);
    assert_eq!(content.len(), 5);
    for (i, line) in content.iter().enumerate() {
        assert_eq!(line.line_number, Some(i + 1));
        assert_eq!(line.status, LineStatus::Unchanged);
    }
    assert!(content[0].activity.is_ok());
    assert!(content[1].activity.is_err());
    assert!(content[2].activity.is_err());
    assert!(content[3].activity.is_ok());
    assert!(content[4].activity.is_err());
}

#[test]
fn no_lines_no_content() {
    assert_eq!(lines(&[]).len(), 0);
    assert_eq!(write_to_file(&[], Precision::Minute), "");
}

#[test]
fn untouched_lines_are_written_as_they_were() {
    let mut content = lines(&[
        "2021-02-16 16:14   |   p|d",
        "this is no activity | but | it | stays",
        "2021-02-16 17:00 | q | running",
    ]);
    if let Ok(activity) = &mut content[2].activity {
        activity.stop(Some(stamp("2021-02-16 18:00:00")));
    }
    content[2].set_changed();
    assert_eq!(
        write_to_file(&content, Precision::Minute),
        "2021-02-16 16:14   |   p|d\n\
         this is no activity | but | it | stays\n\
         2021-02-16 17:00 - 2021-02-16 18:00 | q | running\n"
    );
}

#[test]
fn a_changed_field_is_not_written_unless_the_line_is_marked() {
    let mut content = lines(&["2021-02-16 16:14 | p | d"]);
    if let Ok(activity) = &mut content[0].activity {
        activity.project = "other".to_string();
    }
    assert_eq!(write_to_file(&content, Precision::Minute), "2021-02-16 16:14 | p | d\n");
    content[0].set_changed();
    assert_eq!(write_to_file(&content, Precision::Minute), "2021-02-16 16:14 | other | d\n");
}

#[test]
fn read_then_written_gives_the_trimmed_lines() {
    let content = lines(&["  a  ", "", "2021-02-16 16:14:07 | p | d\t", "x | y\r"]);
    assert_eq!(
        write_to_file(&content, Precision::Minute),
        "a\n\n2021-02-16 16:14:07 | p | d\nx | y\n"
    );
}

#[test]
fn new_lines_are_written_behind_the_others() {
    let mut content = lines(&["# my log"]);
    content.push(Line::for_activity(Activity::start(
        "p|q".to_string(),
        "".to_string(),
        Some(stamp("2021-02-16 16:14:00")),
    )));
    assert_eq!(
        write_to_file(&content, Precision::Minute),
        "# my log\n2021-02-16 16:14 | p\\|q | \n"
    );
    assert_eq!(
        write_to_file(&content, Precision::Second),
        "# my log\n2021-02-16 16:14:00 | p\\|q | \n"
    );
}

#[test]
fn an_unchanged_line_without_text_is_written_from_its_activity() {
    let line = Line {
        plaintext: None,
        line_number: None,
        activity: Ok(Activity::start(
            "p".to_string(),
            "d".to_string(),
            Some(stamp("2021-02-16 16:14:00")),
        )),
        status: LineStatus::Unchanged,
    };
    assert_eq!(write_to_file(&[line], Precision::Minute), "2021-02-16 16:14 | p | d\n");
    let nothing = Line {
        plaintext: None,
        line_number: None,
        activity: Err(ActivityError::GeneralParseError),
        status: LineStatus::Unchanged,
    };
    assert_eq!(write_to_file(&[nothing], Precision::Minute), "");
}

#[test]
fn lines_that_were_not_decoded_are_passed_over_and_counted() {
    let texts = vec![
        Some("2021-02-16 16:14 | p | d".to_string()),
        None,
        Some("no activity".to_string()),
        None,
        None,
        Some(" 2021-02-16 17:14 | q ".to_string()),
    ];
    let content = bartib::data::bartib_file::get_decoded_file_content(&texts, Precision::Minute);
    let numbers: Vec<Option<usize>> = content.iter().map(|l| l.line_number).collect();
    assert_eq!(numbers, vec![Some(1), Some(3), Some(6)]);
    assert_eq!(content[2].plaintext.as_deref(), Some("2021-02-16 17:14 | q"));
    assert_eq!(content[2].activity.as_ref().unwrap().project, "q");
    assert!(content[1].activity.is_err());
    assert!(content.iter().all(|l| l.status == LineStatus::Unchanged));
    assert!(bartib::data::bartib_file::get_decoded_file_content(&vec![None], Precision::Minute).is_empty());
}
