use bartib::controller::manipulation::{
    cancel, change, continue_last_activity, start, stop, stop_all_running_activities,
    ContinueError,
};
use bartib::data::bartib_file::{get_file_content, write_to_file, Line, LineStatus};
use bartib::data::timestamp::{Precision, Timestamp};
use chrono::NaiveDateTime;

fn stamp(text: &str) -> Timestamp {
    let t = NaiveDateTime::parse_from_str(text, "%Y-%m-%d %H:%M:%S").unwrap();
    Timestamp::new(t.and_utc().timestamp(), t.and_utc().timestamp_subsec_nanos()).unwrap()
}

fn lines(texts: &[&str]) -> Vec<Line> {
    let texts: Vec<String> = texts.iter().map(|s| s.to_string()).collect();
    get_file_content(&texts, Precision::Minute)
}

const LOG: [&str; 5] = [
    "2021-02-16 09:00 - 2021-02-16 10:00 | p1 | d1",
    "2021-02-16 10:00 | p2 | running one",
    "a line that holds no activity",
    "2021-02-16 11:00 - 2021-02-16 12:00 | p1 | d2",
    "2021-02-16 12:00 | p3 | running two",
];

#[test]
fn stop_stops_what_is_running() {
    let mut content = lines(&LOG);
    let stopped = stop(&mut content, Some(stamp("2021-02-16 13:00:00")));
    assert_eq!(stopped, vec![1, 4]);
    assert_eq!(content.len(), 5);
    let statuses: Vec<LineStatus> = content.iter().map(|l| l.status).collect();
    assert_eq!(
        statuses,
        vec![
            LineStatus::Unchanged,
            LineStatus::Changed,
            LineStatus::Unchanged,
            LineStatus::Unchanged,
            LineStatus::Changed
        ]
    );
    assert_eq!(
        write_to_file(&content, Precision::Minute),
        "2021-02-16 09:00 - 2021-02-16 10:00 | p1 | d1\n\
         2021-02-16 10:00 - 2021-02-16 13:00 | p2 | running one\n\
         a line that holds no activity\n\
         2021-02-16 11:00 - 2021-02-16 12:00 | p1 | d2\n\
         2021-02-16 12:00 - 2021-02-16 13:00 | p3 | running two\n"
    );
    // nothing is running any more
    assert_eq!(stop(&mut content, Some(stamp("2021-02-16 14:00:00"))), Vec::<usize>::new());
    assert_eq!(
        stop_all_running_activities(&mut content, None),
        Vec::<usize>::new()
    );
}

#[test]
fn stop_now() {
    let mut content = lines(&["2021-02-16 10:00 | p2 | running one"]);
    assert_eq!(stop(&mut content, None), vec![0]);
    let activity = content[0].activity.as_ref().unwrap();
    assert!(activity.is_stopped());
    assert_eq!(content[0].status, LineStatus::Changed);
    assert_eq!(content[0].line_number, Some(1));
}

#[test]
fn start_stops_the_others_and_adds_a_line() {
    let mut content = lines(&LOG);
    let stopped = start(&mut content, "new|project", "new\\description", Some(stamp("2021-02-16 13:00:00")));
    assert_eq!(stopped, vec![1, 4]);
    assert_eq!(content.len(), 6);
    assert_eq!(content[5].status, LineStatus::Changed);
    assert_eq!(content[5].plaintext, None);
    assert_eq!(content[5].line_number, None);
    assert_eq!(
        write_to_file(&content, Precision::Minute),
        "2021-02-16 09:00 - 2021-02-16 10:00 | p1 | d1\n\
         2021-02-16 10:00 - 2021-02-16 13:00 | p2 | running one\n\
         a line that holds no activity\n\
         2021-02-16 11:00 - 2021-02-16 12:00 | p1 | d2\n\
         2021-02-16 12:00 - 2021-02-16 13:00 | p3 | running two\n\
         2021-02-16 13:00 | new\\|project | new\\\\description\n"
    );
}

#[test]
fn start_in_an_empty_log() {
    let mut content: Vec<Line> = Vec::new();
    let stopped = start(&mut content, "p", "d", None);
    assert_eq!(stopped, Vec::<usize>::new());
    assert_eq!(content.len(), 1);
    let activity = content[0].activity.as_ref().unwrap();
    assert_eq!(activity.project, "p");
    assert_eq!(activity.description, "d");
    assert!(!activity.is_stopped());
}

#[test]
fn change_changes_what_is_running() {
    let mut content = lines(&LOG);
    let changed = change(&mut content, Some("px"), None, Some(stamp("2021-02-16 08:00:00")));
    assert_eq!(changed, vec![1, 4]);
    assert_eq!(
        write_to_file(&content, Precision::Minute),
        "2021-02-16 09:00 - 2021-02-16 10:00 | p1 | d1\n\
         2021-02-16 08:00 | px | running one\n\
         a line that holds no activity\n\
         2021-02-16 11:00 - 2021-02-16 12:00 | p1 | d2\n\
         2021-02-16 08:00 | px | running two\n"
    );
    let changed = change(&mut content, None, Some("dx"), None);
    assert_eq!(changed, vec![1, 4]);
    assert_eq!(content[1].activity.as_ref().unwrap().description, "dx");
    assert_eq!(content[1].activity.as_ref().unwrap().project, "px");
}

#[test]
fn change_of_nothing_marks_nothing() {
    let mut content = lines(&LOG);
    let changed = change(&mut content, None, None, None);
    assert_eq!(changed, Vec::<usize>::new());
    assert!(content.iter().all(|l| l.status == LineStatus::Unchanged));
    assert_eq!(write_to_file(&content, Precision::Minute), LOG.join("\n") + "\n");
}

#[test]
fn cancel_takes_out_what_is_running() {
    let content = lines(&LOG);
    let (kept, canceled) = cancel(content);
    assert_eq!(
        write_to_file(&kept, Precision::Minute),
        "2021-02-16 09:00 - 2021-02-16 10:00 | p1 | d1\n\
         a line that holds no activity\n\
         2021-02-16 11:00 - 2021-02-16 12:00 | p1 | d2\n"
    );
    let descriptions: Vec<&str> = canceled
        .iter()
        .map(|l| l.activity.as_ref().unwrap().description.as_str())
        .collect();
    assert_eq!(descriptions, vec!["running one", "running two"]);
    let numbers: Vec<Option<usize>> = kept.iter().map(|l| l.line_number).collect();
    assert_eq!(numbers, vec![Some(1), Some(3), Some(4)]);
    let (kept, canceled) = cancel(Vec::new());
    assert!(kept.is_empty() && canceled.is_empty());
}

#[test]
fn continue_takes_up_the_most_recent() {
    let mut content = lines(&LOG);
    let stopped = continue_last_activity(&mut content, None, None, Some(stamp("2021-02-16 13:00:00")), 0);
    assert_eq!(stopped, Ok(vec![1, 4]));
    assert_eq!(content.len(), 6);
    let activity = content[5].activity.as_ref().unwrap();
    assert_eq!(activity.project, "p3");
    assert_eq!(activity.description, "running two");
    assert_eq!(activity.start, stamp("2021-02-16 13:00:00"));
    assert_eq!(activity.end, None);
    assert_eq!(content[5].status, LineStatus::Changed);
    assert_eq!(content[4].activity.as_ref().unwrap().end, Some(stamp("2021-02-16 13:00:00")));
}

#[test]
fn continue_takes_up_an_earlier_one() {
    // by their starts: d1, running one, d2, running two
    for (number, description, project) in [
        (0usize, "running two", "p3"),
        (1, "d2", "p1"),
        (2, "running one", "p2"),
        (3, "d1", "p1"),
        // as many back as there are activities: the first one still
        (4, "d1", "p1"),
    ] {
        let mut content = lines(&LOG);
        let r = continue_last_activity(&mut content, None, None, None, number);
        assert!(r.is_ok());
        let activity = content[5].activity.as_ref().unwrap();
        assert_eq!(activity.description, description);
        assert_eq!(activity.project, project);
    }
}

#[test]
fn continue_with_another_project_or_description() {
    let mut content = lines(&LOG);
    continue_last_activity(&mut content, Some("other"), None, None, 1).unwrap();
    let activity = content[5].activity.as_ref().unwrap();
    assert_eq!(activity.project, "other");
    assert_eq!(activity.description, "d2");

    let mut content = lines(&LOG);
    continue_last_activity(&mut content, None, Some("again"), None, 1).unwrap();
    let activity = content[5].activity.as_ref().unwrap();
    assert_eq!(activity.project, "p1");
    assert_eq!(activity.description, "again");
}

#[test]
fn continue_fails_and_changes_nothing() {
    let mut content = lines(&["no activity", ""]);
    assert_eq!(
        continue_last_activity(&mut content, None, None, None, 0),
        Err(ContinueError::NothingStarted)
    );
    assert_eq!(content.len(), 2);

    let mut content = lines(&LOG);
    assert_eq!(
        continue_last_activity(&mut content, None, None, None, 5),
        Err(ContinueError::TooFewActivities(5))
    );
    assert_eq!(content.len(), 5);
    assert!(content.iter().all(|l| l.status == LineStatus::Unchanged));
    assert_eq!(write_to_file(&content, Precision::Minute), LOG.join("\n") + "\n");
}
