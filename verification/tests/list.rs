use bartib::controller::list::{
    check, check_sanity, get_index_of_first_element, list, list_last_activities, list_projects,
    list_running, sanity_check, search, select_activities, sort_places,
};
use bartib::data::activity::{Activity, ActivityView};
use bartib::data::bartib_file::{get_file_content, Line};
use bartib::data::getter::ActivityFilter;
use bartib::data::processor::{process_activities, ActivityProcessor};
use bartib::data::timestamp::{Date, Precision, Timestamp};
use bartib::view::list::{
    create_activities_group, create_activity_table, get_activity_table_row,
    group_activities_by_date, list_activities, list_activities_grouped_by_date,
    list_descriptions_and_projects, list_descriptions_and_projects_with_index,
    list_running_activities,
};
use bartib::view::table::{Color, Table, Wrap};
use chrono::{NaiveDate, NaiveDateTime};

fn stamp(text: &str) -> Timestamp {
    let t = NaiveDateTime::parse_from_str(text, "%Y-%m-%d %H:%M:%S").unwrap();
    Timestamp::new(t.and_utc().timestamp(), t.and_utc().timestamp_subsec_nanos()).unwrap()
}

fn day(y: i32, m: u32, d: u32) -> Date {
    Date::new(NaiveDate::from_ymd_opt(y, m, d).unwrap().to_epoch_days()).unwrap()
}

fn lines(texts: &[&str]) -> Vec<Line> {
    let texts: Vec<String> = texts.iter().map(|s| s.to_string()).collect();
    get_file_content(&texts, Precision::Minute)
}

fn activity(start: &str, end: Option<&str>, project: &str, description: &str) -> Activity {
    Activity {
        start: stamp(start),
        end: end.map(stamp),
        project: project.to_string(),
        description: description.to_string(),
    }
}

fn no_filter<'a>() -> ActivityFilter<'a> {
    ActivityFilter {
        number_of_activities: None,
        from_date: None,
        to_date: None,
        date: None,
        project: None,
    }
}

fn labels(table: &Table) -> Vec<&str> {
    table.columns.iter().map(|c| c.label.as_str()).collect()
}

fn contents(table: &Table) -> Vec<Vec<String>> {
    table.rows.iter().map(|r| r.content.clone()).collect()
}

const LOG: [&str; 6] = [
    "2021-02-16 09:00 - 2021-02-16 10:00 | p1 | d1",
    "2021-02-17 23:00 - 2021-02-18 01:30 | p2 | over midnight",
    "a line that holds no activity",
    "2021-02-16 11:00 - 2021-02-16 12:00 | p1 | d2",
    "2021-02-18 12:00 | p3 | running",
    "2021-02-16 08:00 - 2021-02-16 08:30 | p1 | d1",
];

struct Shout {}

impl ActivityProcessor for Shout {
    // what the contracts of the library call the result of `process`; it is never run
    fn processed(&self, _activity: ActivityView) -> ActivityView {
        unreachable!()
    }

    fn process(&self, activity: &Activity) -> Activity {
        let mut changed = activity.clone();
        changed.description = changed.description.to_uppercase();
        changed
    }
}

struct Mark {}

impl ActivityProcessor for Mark {
    fn processed(&self, _activity: ActivityView) -> ActivityView {
        unreachable!()
    }

    fn process(&self, activity: &Activity) -> Activity {
        let mut changed = activity.clone();
        changed.description.push('!');
        changed
    }
}

#[test]
fn index_of_the_first_element() {
    assert_eq!(get_index_of_first_element(10, None), 0);
    assert_eq!(get_index_of_first_element(10, Some(0)), 10);
    assert_eq!(get_index_of_first_element(10, Some(3)), 7);
    assert_eq!(get_index_of_first_element(10, Some(10)), 0);
    assert_eq!(get_index_of_first_element(10, Some(11)), 0);
    assert_eq!(get_index_of_first_element(0, Some(usize::MAX)), 0);
    assert_eq!(get_index_of_first_element(usize::MAX, Some(1)), usize::MAX - 1);
}

#[test]
fn processors_one_after_the_other() {
    let a = activity("2021-02-16 09:00:00", None, "p", "d");
    let b = activity("2021-02-16 10:00:00", None, "q", "e");
    let processors: Vec<Box<dyn ActivityProcessor>> = vec![Box::new(Mark {}), Box::new(Shout {}), Box::new(Mark {})];
    let processed = process_activities(vec![&a, &b], processors);
    let descriptions: Vec<&str> = processed.iter().map(|a| a.description.as_str()).collect();
    assert_eq!(descriptions, vec!["D!!", "E!!"]);
    assert_eq!(processed[0].project, "p");
    assert_eq!(processed[1].start, b.start);
    assert_eq!(process_activities(vec![&a], Vec::new())[0].description, "d");
    assert_eq!(process_activities(Vec::new(), vec![Box::new(Mark {})]).len(), 0);
}

#[test]
fn select_filters_sorts_and_takes_the_last() {
    let all = vec![
        activity("2021-02-16 12:00:00", None, "p", "3"),
        activity("2021-02-16 10:00:00", None, "q", "1"),
        activity("2021-02-16 13:00:00", None, "p", "4"),
        activity("2021-02-16 11:00:00", None, "p", "2"),
    ];
    let names = |filter: &ActivityFilter| -> Vec<String> {
        select_activities(&all, filter)
            .iter()
            .map(|a| a.description.clone())
            .collect()
    };
    assert_eq!(names(&no_filter()), vec!["1", "2", "3", "4"]);
    assert_eq!(names(&ActivityFilter { number_of_activities: Some(2), ..no_filter() }), vec!["3", "4"]);
    assert_eq!(names(&ActivityFilter { number_of_activities: Some(0), ..no_filter() }), Vec::<String>::new());
    assert_eq!(names(&ActivityFilter { number_of_activities: Some(9), ..no_filter() }), vec!["1", "2", "3", "4"]);
    assert_eq!(
        names(&ActivityFilter { number_of_activities: Some(2), project: Some("p"), ..no_filter() }),
        vec!["3", "4"]
    );
    assert_eq!(
        names(&ActivityFilter { number_of_activities: Some(3), project: Some("q"), ..no_filter() }),
        vec!["1"]
    );
}

#[test]
fn running_activities_as_a_table() {
    let content = lines(&LOG);
    let table = list_running(&content, stamp("2021-02-18 13:05:00"), Precision::Minute).unwrap();
    assert_eq!(labels(&table), vec!["Started At", "Description", "Project", "Duration"]);
    let wraps: Vec<Wrap> = table.columns.iter().map(|c| c.wrap).collect();
    assert_eq!(wraps, vec![Wrap::NoWrap, Wrap::Wrap, Wrap::Wrap, Wrap::NoWrap]);
    assert_eq!(contents(&table), vec![vec!["2021-02-18 12:00", "running", "p3", "1h 05m"]]);
    assert_eq!(table.rows[0].style, None);
    assert!(table.groups.is_empty());

    assert!(list_running(&lines(&LOG[..4]), stamp("2021-02-18 13:05:00"), Precision::Minute).is_none());
    assert!(list_running_activities(&[], stamp("2021-02-18 13:05:00"), Precision::Minute).is_none());
}

#[test]
fn activities_as_a_table() {
    let content = lines(&LOG);
    let now = stamp("2021-02-18 12:00:30");
    let table = list(&content, no_filter(), false, Vec::new(), now, Precision::Minute).unwrap();
    assert_eq!(labels(&table), vec!["Started", "Stopped", "Description", "Project", "Duration"]);
    assert_eq!(
        contents(&table),
        vec![
            vec!["2021-02-16 08:00", "08:30", "d1", "p1", "30m"],
            vec!["2021-02-16 09:00", "10:00", "d1", "p1", "1h 00m"],
            vec!["2021-02-16 11:00", "12:00", "d2", "p1", "1h 00m"],
            vec!["2021-02-17 23:00", "2021-02-18 01:30", "over midnight", "p2", "2h 30m"],
            vec!["2021-02-18 12:00", "-", "running", "p3", "<1m"],
        ]
    );
    let styles: Vec<Option<Color>> = table.rows.iter().map(|r| r.style).collect();
    assert_eq!(styles, vec![None, None, None, Some(Color::Yellow), Some(Color::Green)]);
    assert!(table.groups.is_empty());
}

#[test]
fn activities_of_one_day_without_the_day() {
    let content = lines(&LOG);
    let now = stamp("2021-02-18 12:00:30");
    let filter = ActivityFilter { date: Some(day(2021, 2, 16)), number_of_activities: Some(2), ..no_filter() };
    let table = list(&content, filter, false, vec![Box::new(Shout {})], now, Precision::Second).unwrap();
    assert_eq!(
        contents(&table),
        vec![
            vec!["09:00:00", "10:00:00", "D1", "p1", "1h 00m"],
            vec!["11:00:00", "12:00:00", "D2", "p1", "1h 00m"],
        ]
    );
    let filter = ActivityFilter { date: Some(day(2021, 2, 15)), ..no_filter() };
    assert!(list(&content, filter, false, Vec::new(), now, Precision::Minute).is_none());
    let filter = ActivityFilter { date: Some(day(2021, 2, 15)), ..no_filter() };
    assert!(list(&content, filter, true, Vec::new(), now, Precision::Minute).is_none());
}

#[test]
fn activities_grouped_by_date() {
    let content = lines(&LOG);
    let now = stamp("2021-02-18 12:00:30");
    let table = list(&content, no_filter(), true, Vec::new(), now, Precision::Minute).unwrap();
    assert_eq!(labels(&table), vec!["Started", "Stopped", "Description", "Project", "Duration"]);
    assert!(table.rows.is_empty());
    let titles: Vec<&str> = table.groups.iter().map(|g| g.title.as_deref().unwrap()).collect();
    assert_eq!(titles, vec!["2021-02-16", "2021-02-17", "2021-02-18"]);
    let rows: Vec<Vec<Vec<String>>> = table
        .groups
        .iter()
        .map(|g| g.rows.iter().map(|r| r.content.clone()).collect())
        .collect();
    assert_eq!(
        rows,
        vec![
            vec![
                vec!["08:00", "08:30", "d1", "p1", "30m"],
                vec!["09:00", "10:00", "d1", "p1", "1h 00m"],
                vec!["11:00", "12:00", "d2", "p1", "1h 00m"],
            ],
            vec![vec!["23:00", "2021-02-18 01:30", "over midnight", "p2", "2h 30m"]],
            vec![vec!["12:00", "-", "running", "p3", "<1m"]],
        ]
    );
    assert_eq!(table.groups[1].rows[0].style, Some(Color::Yellow));
    assert_eq!(table.groups[2].rows[0].style, Some(Color::Green));
}

#[test]
fn views_of_activities() {
    let a = activity("2021-02-16 09:00:00", Some("2021-02-16 09:10:00"), "p", "a");
    let b = activity("2021-02-15 09:00:00", None, "p", "b");
    let now = stamp("2021-02-16 10:00:00");
    assert!(list_activities(&[], true, now, Precision::Minute).is_none());
    assert!(list_activities_grouped_by_date(&[], now, Precision::Minute).is_none());
    let table = list_activities(&[&a, &b], true, now, Precision::Minute).unwrap();
    assert_eq!(
        contents(&table),
        vec![
            vec!["2021-02-16 09:00", "09:10", "a", "p", "10m"],
            vec!["2021-02-15 09:00", "-", "b", "p", "25h 00m"],
        ]
    );
    let row = get_activity_table_row(&a, false, now, Precision::Second);
    assert_eq!(row.content, vec!["09:00:00", "09:10:00", "a", "p", "10m"]);
    assert_eq!(row.style, None);
    let group = create_activities_group("title", &[&b], now, Precision::Minute);
    assert_eq!(group.title.as_deref(), Some("title"));
    assert_eq!(group.rows[0].content, vec!["09:00", "-", "b", "p", "25h 00m"]);
    let groups = group_activities_by_date(&[&a, &b, &a]);
    assert_eq!(groups.len(), 2);
    assert_eq!(groups[0].0, day(2021, 2, 15));
    assert_eq!(groups[0].1.len(), 1);
    assert_eq!(groups[1].0, day(2021, 2, 16));
    assert_eq!(groups[1].1.len(), 2);
    let table = create_activity_table();
    assert_eq!(table.columns.len(), 5);
    assert!(table.rows.is_empty() && table.groups.is_empty());
}

#[test]
fn last_activities_as_a_table() {
    let content = lines(&LOG);
    // by their starts: d1, d1, d2, over midnight, running
    let table = list_last_activities(&content, 10).unwrap();
    assert_eq!(labels(&table), vec![" # ", "Description", "Project"]);
    assert_eq!(
        contents(&table),
        vec![
            vec!["[3]", "d1", "p1"],
            vec!["[2]", "d2", "p1"],
            vec!["[1]", "over midnight", "p2"],
            vec!["[0]", "running", "p3"],
        ]
    );
    let table = list_last_activities(&content, 2).unwrap();
    assert_eq!(
        contents(&table),
        vec![vec!["[1]", "over midnight", "p2"], vec!["[0]", "running", "p3"]]
    );
    assert!(list_last_activities(&content, 0).is_none());
    assert!(list_last_activities(&lines(&["nothing"]), 10).is_none());
}

#[test]
fn descriptions_and_projects_as_a_table() {
    let d = "d".to_string();
    let p = "p".to_string();
    let e = "e".to_string();
    let table = list_descriptions_and_projects(&[(&d, &p), (&e, &p)]).unwrap();
    assert_eq!(contents(&table), vec![vec!["[1]", "d", "p"], vec!["[0]", "e", "p"]]);
    assert!(list_descriptions_and_projects(&[]).is_none());
    let table = list_descriptions_and_projects_with_index(&[(12, (&d, &p)), (usize::MAX, (&e, &p))]).unwrap();
    assert_eq!(
        contents(&table),
        vec![
            vec!["[12]".to_string(), "d".to_string(), "p".to_string()],
            vec![format!("[{}]", usize::MAX), "e".to_string(), "p".to_string()]
        ]
    );
    assert!(list_descriptions_and_projects_with_index(&[]).is_none());
}

#[test]
fn lines_that_hold_no_activity() {
    let content = lines(&["2021-02-16 09:00 | p | d", "nothing", "", "never | p", "2021-02-16 09:00 | q"]);
    let found = check(&content);
    let numbers: Vec<Option<usize>> = found.iter().map(|l| l.line_number).collect();
    assert_eq!(numbers, vec![Some(2), Some(3), Some(4)]);
    assert_eq!(found[0].plaintext.as_deref(), Some("nothing"));
    assert!(check(&lines(&LOG[..2])).is_empty());
}

#[test]
fn projects_once_each_in_order() {
    let content = lines(&[
        "2021-02-16 09:00 - 2021-02-16 10:00 | zebra | d",
        "2021-02-16 09:00 | Zebra | d",
        "2021-02-16 09:00 - 2021-02-16 10:00 | apple | d",
        "2021-02-16 09:00 | zebra | e",
        "2021-02-16 09:00 - 2021-02-16 10:00 |  | d",
        "nothing",
        "2021-02-16 09:00 - 2021-02-16 10:00 | apple pie | d",
        "2021-02-16 09:00 - 2021-02-16 10:00 | äpfel | d",
    ]);
    assert_eq!(
        list_projects(&content, false),
        vec!["", "Zebra", "apple", "apple pie", "zebra", "äpfel"]
    );
    assert_eq!(list_projects(&content, true), vec!["Zebra", "zebra"]);
    assert!(list_projects(&[], false).is_empty());
    let mut expected: Vec<String> = content
        .iter()
        .filter_map(|l| l.activity.as_ref().ok())
        .map(|a| a.project.clone())
        .collect();
    expected.sort_unstable();
    expected.dedup();
    assert_eq!(list_projects(&content, false), expected);
}

#[test]
fn search_in_descriptions_and_projects() {
    let content = lines(&[
        "2021-02-16 09:00 - 2021-02-16 10:00 | Bartib | write Tests",
        "2021-02-16 10:00 - 2021-02-16 11:00 | other | rest",
        "2021-02-16 11:00 - 2021-02-16 12:00 | other | read about BARTIB",
        "2021-02-16 12:00 | more | éclair",
    ]);
    let table = search(&content, Some("bartib")).unwrap();
    assert_eq!(
        contents(&table),
        vec![vec!["[3]", "write Tests", "Bartib"], vec!["[1]", "read about BARTIB", "other"]]
    );
    let table = search(&content, Some("TEST")).unwrap();
    assert_eq!(contents(&table), vec![vec!["[3]", "write Tests", "Bartib"]]);
    let table = search(&content, Some("ÉCL")).unwrap();
    assert_eq!(contents(&table), vec![vec!["[0]", "éclair", "more"]]);
    let table = search(&content, Some("")).unwrap();
    assert_eq!(table.rows.len(), 4);
    let table = search(&content, Some("r?s")).unwrap();
    assert_eq!(contents(&table), vec![vec!["[2]", "rest", "other"]]);
    assert!(search(&content, Some("nowhere")).is_none());
    assert!(search(&content, None).is_none());
}

#[test]
fn places_in_the_order_of_the_times() {
    let t = |s: i64| Timestamp::new(s, 0).unwrap();
    assert_eq!(sort_places(&vec![t(3), t(1), t(2), t(1), t(3), t(0)]), vec![5, 1, 3, 2, 0, 4]);
    assert_eq!(sort_places(&Vec::new()), Vec::<usize>::new());
}

#[test]
fn sanity_of_one_activity() {
    let now = stamp("2021-02-16 12:00:00");
    let a = activity("2021-02-16 09:00:00", Some("2021-02-16 08:00:00"), "p", "backwards");
    assert_eq!(check_sanity(None, &a, now), (true, false));
    assert_eq!(check_sanity(Some(stamp("2021-02-16 09:00:00")), &a, now), (true, false));
    assert_eq!(check_sanity(Some(stamp("2021-02-16 09:00:01")), &a, now), (true, true));
    let b = activity("2021-02-16 13:00:00", None, "p", "from the future");
    assert_eq!(check_sanity(None, &b, now), (true, false));
    let c = activity("2021-02-16 11:00:00", None, "p", "fine");
    assert_eq!(check_sanity(None, &c, now), (false, false));
    assert_eq!(check_sanity(Some(stamp("2021-02-16 11:30:00")), &c, now), (false, true));
}

#[test]
fn sanity_of_a_file() {
    let content = lines(&[
        "2021-02-16 12:00 - 2021-02-16 13:00 | p | overlaps the long one",
        "2021-02-16 09:00 - 2021-02-16 14:00 | p | long",
        "nothing",
        "2021-02-16 14:00 - 2021-02-16 15:00 | p | fine",
        "2021-02-16 16:00 - 2021-02-16 15:30 | p | backwards",
        "2021-02-16 15:10 | p | running and fine",
        "2021-02-16 14:30 - 2021-02-16 14:45 | p | within another",
    ]);
    let found = sanity_check(&content, stamp("2021-02-17 00:00:00"));
    let summary: Vec<(usize, &str, bool, bool)> = found
        .iter()
        .map(|f| (f.line_number, f.activity.description.as_str(), f.negative_duration, f.started_before_end))
        .collect();
    assert_eq!(
        summary,
        vec![
            (1, "overlaps the long one", false, true),
            (7, "within another", false, true),
            (5, "backwards", true, false),
        ]
    );
    assert!(sanity_check(&lines(&LOG), stamp("2021-02-19 00:00:00")).is_empty());
    assert!(sanity_check(&[], stamp("2021-02-19 00:00:00")).is_empty());
}
