use bartib::data::activity::Activity;
use bartib::data::bartib_file::{get_file_content, Line};
use bartib::data::getter::{
    filter_activities, get_activities, get_descriptions_and_projects,
    get_descriptions_and_projects_from_activities, get_last_activity_by_end,
    get_last_activity_by_start, get_running_activities, index_of_last_latest, sort_by_start,
    ActivityFilter,
};
use bartib::data::timestamp::{Date, Precision, Timestamp};
use chrono::{NaiveDate, NaiveDateTime};

fn stamp(text: &str) -> Timestamp {
    let t = NaiveDateTime::parse_from_str(text, "%Y-%m-%d %H:%M:%S").unwrap();
    Timestamp::new(t.and_utc().timestamp(), t.and_utc().timestamp_subsec_nanos()).unwrap()
}

fn day(y: i32, m: u32, d: u32) -> Date {
    Date::new(NaiveDate::from_ymd_opt(y, m, d).unwrap().to_epoch_days()).unwrap()
}

fn lines(texts: &[&str]) -> Vec<Line> {
    let texts: Vec<String> = texts.iter().map(|s| s.to_string()).collect();
    get_file_content(&texts, Precision::Minute)
}

fn activity(start: &str, end: Option<&str>, project: &str, description: &str) -> Activity {
    Activity {
        start: stamp(start),
        end: end.map(stamp),
        project: project.to_string(),
        description: description.to_string(),
    }
}

#[test]
fn get_descriptions_and_projects_test_simple() {
    let a1 = Activity::start("p1".to_string(), "d1".to_string(), None);
    let a2 = Activity::start("p1".to_string(), "d1".to_string(), None);
    let a3 = Activity::start("p2".to_string(), "d1".to_string(), None);
    let mut activities = vec![&a1, &a2, &a3];

    let descriptions_and_projects = get_descriptions_and_projects_from_activities(&mut activities);

    assert_eq!(descriptions_and_projects.len(), 2);
    assert_eq!(
        *descriptions_and_projects.first().unwrap(),
        (&"d1".to_string(), &"p1".to_string())
    );
    assert_eq!(
        *descriptions_and_projects.get(1).unwrap(),
        (&"d1".to_string(), &"p2".to_string())
    );
}

#[test]
fn get_descriptions_and_projects_test_restarted_activity() {
    let a1 = Activity::start("p1".to_string(), "d1".to_string(), None);
    let a2 = Activity::start("p2".to_string(), "d1".to_string(), None);
    let a3 = Activity::start("p1".to_string(), "d1".to_string(), None);
    let mut activities = vec![&a1, &a2, &a3];

    let descriptions_and_projects = get_descriptions_and_projects_from_activities(&mut activities);

    assert_eq!(descriptions_and_projects.len(), 2);
    assert_eq!(
        *descriptions_and_projects.first().unwrap(),
        (&"d1".to_string(), &"p2".to_string())
    );
    assert_eq!(
        *descriptions_and_projects.get(1).unwrap(),
        (&"d1".to_string(), &"p1".to_string())
    );
}

#[test]
fn descriptions_and_projects_by_start_not_by_line() {
    // a, b, c, a, c by their starts: b, a, c
    let content = lines(&[
        "2021-02-16 13:00 - 2021-02-16 14:00 | p | a",
        "2021-02-16 10:00 - 2021-02-16 11:00 | p | a",
        "broken",
        "2021-02-16 14:00 | p | c",
        "2021-02-16 12:00 - 2021-02-16 13:00 | p | c",
        "2021-02-16 11:00 - 2021-02-16 12:00 | p | b",
    ]);
    let found = get_descriptions_and_projects(&content);
    let found: Vec<(&str, &str)> = found.iter().map(|(d, p)| (d.as_str(), p.as_str())).collect();
    assert_eq!(found, vec![("b", "p"), ("a", "p"), ("c", "p")]);
}

#[test]
fn descriptions_and_projects_leave_the_activities_latest_first() {
    let a1 = activity("2021-02-16 10:00:00", None, "p", "1");
    let a2 = activity("2021-02-16 12:00:00", None, "p", "2");
    let a3 = activity("2021-02-16 11:00:00", None, "p", "3");
    let a4 = activity("2021-02-16 11:00:00", None, "p", "4");
    let mut activities = vec![&a1, &a2, &a3, &a4];
    let found = get_descriptions_and_projects_from_activities(&mut activities);
    assert_eq!(found.len(), 4);
    let order: Vec<&str> = activities.iter().map(|a| a.description.as_str()).collect();
    assert_eq!(order, vec!["2", "4", "3", "1"]);
    assert_eq!(get_descriptions_and_projects_from_activities(&mut Vec::new()).len(), 0);
}

#[test]
fn sort_by_start_keeps_the_order_of_equal_starts() {
    let a1 = activity("2021-02-16 11:00:00", None, "p", "1");
    let a2 = activity("2021-02-16 10:00:00", None, "p", "2");
    let a3 = activity("2021-02-16 11:00:00", None, "p", "3");
    let a4 = activity("2021-02-16 10:00:00", None, "p", "4");
    let a5 = activity("2021-02-16 09:00:00", None, "p", "5");
    let sorted = sort_by_start(&vec![&a1, &a2, &a3, &a4, &a5]);
    let order: Vec<&str> = sorted.iter().map(|a| a.description.as_str()).collect();
    assert_eq!(order, vec!["5", "2", "4", "1", "3"]);
    assert_eq!(sort_by_start(&Vec::new()).len(), 0);
}

#[test]
fn activities_of_the_lines_in_order() {
    let content = lines(&[
        "2021-02-16 13:00 - 2021-02-16 14:00 | p | a",
        "broken",
        "2021-02-16 10:00 | p | b",
        "2021-02-16 09:00 | p | c",
    ]);
    let all: Vec<&str> = get_activities(&content)
        .iter()
        .map(|a| a.description.as_str())
        .collect();
    assert_eq!(all, vec!["a", "b", "c"]);
    let running: Vec<&str> = get_running_activities(&content)
        .iter()
        .map(|a| a.description.as_str())
        .collect();
    assert_eq!(running, vec!["b", "c"]);
    assert_eq!(get_activities(&[]).len(), 0);
    assert_eq!(get_running_activities(&[]).len(), 0);
}

#[test]
fn last_activity_by_start_and_by_end() {
    let content = lines(&[
        "2021-02-16 13:00 - 2021-02-16 18:00 | p | a",
        "2021-02-16 15:00 - 2021-02-16 16:00 | p | b",
        "2021-02-16 15:00 - 2021-02-16 18:00 | p | c",
        "2021-02-16 14:00 | p | d",
        "broken",
    ]);
    assert_eq!(get_last_activity_by_start(&content).unwrap().description, "c");
    assert_eq!(get_last_activity_by_end(&content).unwrap().description, "c");

    let content = lines(&["broken", "2021-02-16 14:00 | p | d"]);
    assert_eq!(get_last_activity_by_start(&content).unwrap().description, "d");
    assert!(get_last_activity_by_end(&content).is_none());

    let content = lines(&["broken"]);
    assert!(get_last_activity_by_start(&content).is_none());
    assert!(get_last_activity_by_end(&content).is_none());
}

#[test]
fn index_of_the_last_of_the_latest() {
    let t = |s: i64| Timestamp::new(s, 0).unwrap();
    assert_eq!(index_of_last_latest(&vec![t(5)]), 0);
    assert_eq!(index_of_last_latest(&vec![t(5), t(5)]), 1);
    assert_eq!(index_of_last_latest(&vec![t(5), t(7), t(6), t(7), t(1)]), 3);
    assert_eq!(index_of_last_latest(&vec![t(9), t(7), t(6)]), 0);
}

#[test]
fn filter_by_days() {
    let a0 = activity("2024-02-11 10:00:00", None, "p1", "d0");
    let a1 = activity("2024-03-11 00:00:00", None, "p1", "d1");
    let a2 = activity("2024-03-18 23:59:59", None, "p1", "d2");
    let a3 = activity("2024-03-19 10:00:00", None, "p1", "d3");
    let all = vec![&a0, &a1, &a2, &a3];
    let names = |v: Vec<&Activity>| -> Vec<String> { v.iter().map(|a| a.description.clone()).collect() };

    let none = ActivityFilter {
        number_of_activities: None,
        from_date: None,
        to_date: None,
        date: None,
        project: None,
    };
    assert_eq!(names(filter_activities(all.clone(), &none)), vec!["d0", "d1", "d2", "d3"]);

    let from = ActivityFilter { from_date: Some(day(2024, 3, 11)), ..none };
    assert_eq!(names(filter_activities(all.clone(), &from)), vec!["d1", "d2", "d3"]);

    let to = ActivityFilter { to_date: Some(day(2024, 3, 18)), from_date: None, ..from };
    assert_eq!(names(filter_activities(all.clone(), &to)), vec!["d0", "d1", "d2"]);

    let both = ActivityFilter { from_date: Some(day(2024, 3, 11)), ..to };
    assert_eq!(names(filter_activities(all.clone(), &both)), vec!["d1", "d2"]);

    // a single day overrides the other two
    let date = ActivityFilter { date: Some(day(2024, 3, 19)), ..both };
    assert_eq!(names(filter_activities(all.clone(), &date)), vec!["d3"]);

    let empty = ActivityFilter { from_date: Some(day(2024, 3, 19)), to_date: Some(day(2024, 3, 11)), date: None, ..date };
    assert_eq!(names(filter_activities(all.clone(), &empty)), Vec::<String>::new());
}

#[test]
fn filter_by_project_pattern() {
    let a0 = activity("2024-02-11 10:00:00", None, "bartib", "d0");
    let a1 = activity("2024-03-11 10:00:00", None, "barbib", "d1");
    let a2 = activity("2024-03-18 10:00:00", None, "other", "d2");
    let a3 = activity("2024-03-19 10:00:00", None, "", "d3");
    let a4 = activity("2024-03-19 10:00:00", None, "*", "d4");
    let all = vec![&a0, &a1, &a2, &a3, &a4];
    let matching = |pattern: &str| -> Vec<String> {
        let filter = ActivityFilter {
            number_of_activities: None,
            from_date: None,
            to_date: None,
            date: None,
            project: Some(pattern),
        };
        filter_activities(all.clone(), &filter)
            .iter()
            .map(|a| a.description.clone())
            .collect()
    };
    assert_eq!(matching("bartib"), vec!["d0"]);
    assert_eq!(matching("bar?ib"), vec!["d0", "d1"]);
    assert_eq!(matching("bar*"), vec!["d0", "d1"]);
    assert_eq!(matching("*r"), vec!["d2"]);
    assert_eq!(matching("*"), vec!["d0", "d1", "d2", "d3", "d4"]);
    assert_eq!(matching("**"), vec!["d0", "d1", "d2", "d3", "d4"]);
    assert_eq!(matching(""), vec!["d3"]);
    assert_eq!(matching("?"), vec!["d4"]);
    assert_eq!(matching("?*"), vec!["d0", "d1", "d2", "d4"]);
    assert_eq!(matching("b*t*b"), vec!["d0"]);
    assert_eq!(matching("b*b*b"), vec!["d1"]);
    assert_eq!(matching("BARTIB"), Vec::<String>::new());
    assert_eq!(matching("bartib?"), Vec::<String>::new());
}
