//! The tables that the listings show.
use vstd::prelude::*;
use vstd::string::StringExecFns;
use crate::data::activity::{lasted, stamp_text, Activity, ActivityView};
use crate::data::escaping::texts;
use crate::data::getter::{activity_views, pair_views, sort_by_start, sorted_by_start};
use crate::data::timestamp::{
    date_text, datetime_text, format_datetime, Date, Precision, Timestamp,
};
use crate::view::format_util::{decimal, duration_text, format_duration, push_digits};
use crate::view::render::label_texts;
use crate::view::table::{Color, Column, Group, Row, Table, Wrap};

verus! {

/// A time of day as the listings show it.
pub open spec fn time_text(t: Timestamp, precision: Precision) -> Seq<char> {
    datetime_text(t.secs(), t.nanos(), precision.time_pattern())
}

/// Whether an activity ended on another day than it started.
pub open spec fn spans_days(a: ActivityView) -> bool {
    a.end is Some && a.start.day() != a.end.unwrap().day()
}

/// The texts of the row of an activity: its start, its end, its
/// description, its project and how long it has lasted at the time `now`.
///
/// The start is shown with its day where `with_start_dates` is set, the end
/// only where it is on another day than the start. A running activity has
/// a hyphen for its end.
pub open spec fn activity_row_texts(
    a: ActivityView,
    with_start_dates: bool,
    now: Timestamp,
    precision: Precision,
) -> Seq<Seq<char>> {
    seq![
        if with_start_dates {
            stamp_text(a.start, precision)
        } else {
            time_text(a.start, precision)
        },
        match a.end {
            None => seq!['-'],
            Some(end) => if spans_days(a) {
                stamp_text(end, precision)
            } else {
                time_text(end, precision)
            },
        },
        a.description,
        a.project,
        duration_text(lasted(a, now), precision),
    ]
}

/// The colour of the row of an activity: green while it is running, yellow
/// where it ended on another day than it started.
pub open spec fn activity_row_color(a: ActivityView) -> Option<Color> {
    if a.end is None {
        Some(Color::Green)
    } else if spans_days(a) {
        Some(Color::Yellow)
    } else {
        None
    }
}

/// Whether a row shows an activity.
pub open spec fn is_activity_row(
    row: Row,
    a: ActivityView,
    with_start_dates: bool,
    now: Timestamp,
    precision: Precision,
) -> bool {
    texts(row.content@) == activity_row_texts(a, with_start_dates, now, precision) && row.style
        == activity_row_color(a)
}

/// The labels of a table of activities.
pub open spec fn activity_labels() -> Seq<Seq<char>> {
    seq!["Started"@, "Stopped"@, "Description"@, "Project"@, "Duration"@]
}

/// Which columns of a table of activities may be wrapped: the
/// descriptions and the projects.
pub open spec fn activity_wraps() -> Seq<Wrap> {
    seq![Wrap::NoWrap, Wrap::NoWrap, Wrap::Wrap, Wrap::Wrap, Wrap::NoWrap]
}

/// An empty table of activities.
pub fn create_activity_table() -> (r: Table)
    ensures
        label_texts(r) == activity_labels(),
        r.column_wraps() == activity_wraps(),
        r.rows@.len() == 0,
        r.groups@.len() == 0,
{
    let mut columns: Vec<Column> = Vec::new();
    columns.push(Column { label: String::from_str("Started"), wrap: Wrap::NoWrap });
    columns.push(Column { label: String::from_str("Stopped"), wrap: Wrap::NoWrap });
    columns.push(Column { label: String::from_str("Description"), wrap: Wrap::Wrap });
    columns.push(Column { label: String::from_str("Project"), wrap: Wrap::Wrap });
    columns.push(Column { label: String::from_str("Duration"), wrap: Wrap::NoWrap });
    let table = Table::new(columns);
    assert(label_texts(table) =~= activity_labels());
    assert(table.column_wraps() =~= activity_wraps());
    table
}

/// The row of an activity.
///
/// The end is shown with its day when it is not the day of the start.
pub fn get_activity_table_row(
    activity: &Activity,
    with_start_dates: bool,
    now: Timestamp,
    precision: Precision,
) -> (r: Row)
    ensures
        is_activity_row(r, activity@, with_start_dates, now, precision),
{
    let more_then_one_day = match activity.end {
        Some(end) => activity.start.date().number() != end.date().number(),
        None => false,
    };
    let start = activity.start;
    proof {
        use_type_invariant(&start);
    }
    let display_end = match activity.end {
        None => {
            proof {
                reveal_strlit("-");
                assert("-"@ =~= seq!['-']);
            }
            String::from_str("-")
        },
        Some(end) => {
            proof {
                use_type_invariant(&end);
            }
            if more_then_one_day {
                format_datetime(end, precision.format())
            } else {
                format_datetime(end, precision.time_format())
            }
        },
    };
    let start_format = if with_start_dates {
        precision.format()
    } else {
        precision.time_format()
    };
    let mut content: Vec<String> = Vec::new();
    content.push(format_datetime(start, start_format));
    content.push(display_end);
    content.push(activity.description.clone());
    content.push(activity.project.clone());
    content.push(format_duration(&activity.duration_at(now), precision));
    let mut new_row = Row::new(content);
    if !activity.is_stopped() {
        new_row.set_color(Color::Green);
    } else if more_then_one_day {
        new_row.set_color(Color::Yellow);
    }
    assert(texts(new_row.content@) =~= activity_row_texts(
        activity@,
        with_start_dates,
        now,
        precision,
    ));
    new_row
}

/// Whether some rows show some activities, one each, in order.
pub open spec fn are_activity_rows(
    rows: Seq<Row>,
    activities: Seq<ActivityView>,
    with_start_dates: bool,
    now: Timestamp,
    precision: Precision,
) -> bool {
    &&& rows.len() == activities.len()
    &&& forall|i: int|
        0 <= i < rows.len() ==> is_activity_row(
            #[trigger] rows[i],
            activities[i],
            with_start_dates,
            now,
            precision,
        )
}

fn activity_rows(
    activities: &[&Activity],
    with_start_dates: bool,
    now: Timestamp,
    precision: Precision,
) -> (r: Vec<Row>)
    ensures
        are_activity_rows(r@, activity_views(activities@), with_start_dates, now, precision),
{
    let mut rows: Vec<Row> = Vec::new();
    let mut i: usize = 0;
    while i < activities.len()
        invariant
            i <= activities.len(),
            rows@.len() == i,
            forall|k: int|
                0 <= k < i ==> is_activity_row(
                    #[trigger] rows@[k],
                    activities@[k]@,
                    with_start_dates,
                    now,
                    precision,
                ),
        decreases activities.len() - i,
    {
        rows.push(get_activity_table_row(activities[i], with_start_dates, now, precision));
        i += 1;
    }
    rows
}

/// Whether a table shows some activities, one row each, in order; and
/// whether there is no table where there are no activities.
pub open spec fn is_activity_table(
    table: Option<Table>,
    activities: Seq<ActivityView>,
    with_start_dates: bool,
    now: Timestamp,
    precision: Precision,
) -> bool {
    &&& table is None == (activities.len() == 0)
    &&& table is Some ==> {
        &&& label_texts(table.unwrap()) == activity_labels()
        &&& table.unwrap().column_wraps() == activity_wraps()
        &&& table.unwrap().groups@.len() == 0
        &&& are_activity_rows(table.unwrap().rows@, activities, with_start_dates, now, precision)
    }
}

/// The table of some activities, one row each, in order. There is none
/// where there is no activity to show.
pub fn list_activities(
    activities: &[&Activity],
    with_start_dates: bool,
    now: Timestamp,
    precision: Precision,
) -> (r: Option<Table>)
    ensures
        is_activity_table(r, activity_views(activities@), with_start_dates, now, precision),
{
    if activities.len() == 0 {
        return None;
    }
    let mut activity_table = create_activity_table();
    activity_table.rows = activity_rows(activities, with_start_dates, now, precision);
    Some(activity_table)
}

/// A group of rows for some activities, under a title.
pub fn create_activities_group(
    title: &str,
    activities: &[&Activity],
    now: Timestamp,
    precision: Precision,
) -> (r: Group)
    ensures
        r.title is Some && r.title.unwrap()@ == title@,
        are_activity_rows(r.rows@, activity_views(activities@), false, now, precision),
{
    let rows = activity_rows(activities, false, now, precision);
    Group::new(Some(String::from_str(title)), rows)
}

/// Activities in the order of their starts, cut into the runs that started
/// on the same day: each run with the number of its day.
pub open spec fn day_groups(sorted: Seq<ActivityView>) -> Seq<(int, Seq<ActivityView>)>
    decreases sorted.len(),
{
    if sorted.len() == 0 {
        Seq::empty()
    } else {
        let before = day_groups(sorted.drop_last());
        let last = sorted.last();
        if before.len() > 0 && before.last().0 == last.start.day() {
            before.update(before.len() - 1, (before.last().0, before.last().1.push(last)))
        } else {
            before.push((last.start.day(), seq![last]))
        }
    }
}

/// Whether some groups of activities are the given groups.
pub open spec fn are_day_groups(
    groups: Seq<(Date, Vec<&Activity>)>,
    expected: Seq<(int, Seq<ActivityView>)>,
) -> bool {
    &&& groups.len() == expected.len()
    &&& forall|i: int|
        0 <= i < groups.len() ==> (#[trigger] groups[i]).0.days() == expected[i].0
            && activity_views(groups[i].1@) == expected[i].1
}

/// The activities by the day on which they started: the days in order, and
/// the activities of each day in the order of their starts.
pub fn group_activities_by_date<'a>(activities: &[&'a Activity]) -> (r: Vec<
    (Date, Vec<&'a Activity>),
>)
    ensures
        are_day_groups(r@, day_groups(sorted_by_start(activity_views(activities@)))),
{
    let mut all: Vec<&'a Activity> = Vec::new();
    let mut k: usize = 0;
    while k < activities.len()
        invariant
            k <= activities.len(),
            all@ == activities@.take(k as int),
        decreases activities.len() - k,
    {
        all.push(activities[k]);
        assert(all@ =~= activities@.take(k + 1));
        k += 1;
    }
    assert(activities@.take(k as int) =~= activities@);
    let sorted = sort_by_start(&all);
    let ghost whole = activity_views(sorted@);
    let mut groups: Vec<(Date, Vec<&'a Activity>)> = Vec::new();
    let mut i: usize = 0;
    assert(whole.take(0) =~= Seq::<ActivityView>::empty());
    while i < sorted.len()
        invariant
            i <= sorted.len(),
            whole == activity_views(sorted@),
            are_day_groups(groups@, day_groups(whole.take(i as int))),
        decreases sorted.len() - i,
    {
        let activity = sorted[i];
        let day = activity.start.date();
        let ghost before = day_groups(whole.take(i as int));
        proof {
            let next = whole.take(i + 1);
            assert(next.drop_last() =~= whole.take(i as int));
            assert(next.last() == activity@);
        }
        let n = groups.len();
        let same_day = n > 0 && groups[n - 1].0.number() == day.number();
        if same_day {
            let ghost members = activity_views(groups@[n - 1].1@);
            let ghost groups_before = groups@;
            let group = &mut groups[n - 1];
            group.1.push(activity);
            proof {
                assert(activity_views(groups@[n - 1].1@) =~= members.push(activity@));
                assert forall|j: int| 0 <= j < groups@.len() implies (#[trigger] groups@[j]).0.days()
                    == day_groups(whole.take(i + 1))[j].0 && activity_views(groups@[j].1@)
                    == day_groups(whole.take(i + 1))[j].1 by {
                    if j < n - 1 {
                        assert(groups@[j] == groups_before[j]);
                    }
                }
            }
        } else {
            let mut members: Vec<&'a Activity> = Vec::new();
            members.push(activity);
            assert(activity_views(members@) =~= seq![activity@]);
            groups.push((day, members));
        }
        i += 1;
    }
    assert(whole.take(i as int) =~= whole);
    groups
}

/// Whether the groups of a table show the given groups of activities, each
/// under the date of its day.
pub open spec fn are_group_rows(
    groups: Seq<Group>,
    expected: Seq<(int, Seq<ActivityView>)>,
    now: Timestamp,
    precision: Precision,
) -> bool {
    &&& groups.len() == expected.len()
    &&& forall|i: int|
        0 <= i < groups.len() ==> (#[trigger] groups[i]).title is Some
            && groups[i].title.unwrap()@ == date_text(expected[i].0) && are_activity_rows(
            groups[i].rows@,
            expected[i].1,
            false,
            now,
            precision,
        )
}

/// Whether a table shows some activities in groups, one for each day on
/// which any of them started, the days in order and the activities of each
/// day in the order of their starts; and whether there is no table where
/// there are no activities.
pub open spec fn is_grouped_table(
    table: Option<Table>,
    activities: Seq<ActivityView>,
    now: Timestamp,
    precision: Precision,
) -> bool {
    &&& table is None == (activities.len() == 0)
    &&& table is Some ==> {
        &&& label_texts(table.unwrap()) == activity_labels()
        &&& table.unwrap().column_wraps() == activity_wraps()
        &&& table.unwrap().rows@.len() == 0
        &&& are_group_rows(
            table.unwrap().groups@,
            day_groups(sorted_by_start(activities)),
            now,
            precision,
        )
    }
}

/// The table of some activities, grouped by the days on which they
/// started. There is none where there is no activity to show.
pub fn list_activities_grouped_by_date(
    activities: &[&Activity],
    now: Timestamp,
    precision: Precision,
) -> (r: Option<Table>)
    ensures
        is_grouped_table(r, activity_views(activities@), now, precision),
{
    if activities.len() == 0 {
        return None;
    }
    let mut activity_table = create_activity_table();
    let by_date = group_activities_by_date(activities);
    let ghost expected = day_groups(sorted_by_start(activity_views(activities@)));
    let mut groups: Vec<Group> = Vec::new();
    let mut i: usize = 0;
    while i < by_date.len()
        invariant
            i <= by_date.len(),
            are_day_groups(by_date@, expected),
            groups@.len() == i,
            forall|k: int|
                0 <= k < i ==> (#[trigger] groups@[k]).title is Some
                    && groups@[k].title.unwrap()@ == date_text(expected[k].0)
                    && are_activity_rows(groups@[k].rows@, expected[k].1, false, now, precision),
        decreases by_date.len() - i,
    {
        let day = by_date[i].0;
        proof {
            use_type_invariant(&day);
        }
        let title = day.format();
        let group = create_activities_group(
            title.as_str(),
            by_date[i].1.as_slice(),
            now,
            precision,
        );
        groups.push(group);
        i += 1;
    }
    activity_table.groups = groups;
    Some(activity_table)
}

/// The texts of the row of a running activity: its start, its
/// description, its project and how long it has lasted at the time `now`.
pub open spec fn running_row_texts(a: ActivityView, now: Timestamp, precision: Precision) -> Seq<
    Seq<char>,
> {
    seq![
        stamp_text(a.start, precision),
        a.description,
        a.project,
        duration_text(lasted(a, now), precision),
    ]
}

/// Whether a table shows some running activities, one row each, in order;
/// and whether there is no table where there are no activities.
pub open spec fn is_running_table(
    table: Option<Table>,
    activities: Seq<ActivityView>,
    now: Timestamp,
    precision: Precision,
) -> bool {
    &&& table is None == (activities.len() == 0)
    &&& table is Some ==> {
        &&& label_texts(table.unwrap()) == seq!["Started At"@, "Description"@, "Project"@, "Duration"@]
        &&& table.unwrap().column_wraps() == seq![Wrap::NoWrap, Wrap::Wrap, Wrap::Wrap, Wrap::NoWrap]
        &&& table.unwrap().groups@.len() == 0
        &&& table.unwrap().rows@.len() == activities.len()
        &&& forall|i: int|
            0 <= i < activities.len() ==> texts((#[trigger] table.unwrap().rows@[i]).content@)
                == running_row_texts(activities[i], now, precision)
                && table.unwrap().rows@[i].style is None
    }
}

/// The table of the running activities, one row each, in order. There is
/// none where no activity is running.
pub fn list_running_activities(activities: &[&Activity], now: Timestamp, precision: Precision) -> (r:
    Option<Table>)
    ensures
        is_running_table(r, activity_views(activities@), now, precision),
{
    if activities.len() == 0 {
        return None;
    }
    let mut columns: Vec<Column> = Vec::new();
    columns.push(Column { label: String::from_str("Started At"), wrap: Wrap::NoWrap });
    columns.push(Column { label: String::from_str("Description"), wrap: Wrap::Wrap });
    columns.push(Column { label: String::from_str("Project"), wrap: Wrap::Wrap });
    columns.push(Column { label: String::from_str("Duration"), wrap: Wrap::NoWrap });
    let mut activity_table = Table::new(columns);
    assert(label_texts(activity_table) =~= seq![
        "Started At"@,
        "Description"@,
        "Project"@,
        "Duration"@,
    ]);
    assert(activity_table.column_wraps() =~= seq![Wrap::NoWrap, Wrap::Wrap, Wrap::Wrap, Wrap::NoWrap]);
    let mut rows: Vec<Row> = Vec::new();
    let mut i: usize = 0;
    while i < activities.len()
        invariant
            i <= activities.len(),
            rows@.len() == i,
            forall|k: int|
                0 <= k < i ==> texts((#[trigger] rows@[k]).content@) == running_row_texts(
                    activities@[k]@,
                    now,
                    precision,
                ) && rows@[k].style is None,
        decreases activities.len() - i,
    {
        let activity = activities[i];
        let start = activity.start;
        proof {
            use_type_invariant(&start);
        }
        let mut content: Vec<String> = Vec::new();
        content.push(format_datetime(start, precision.format()));
        content.push(activity.description.clone());
        content.push(activity.project.clone());
        content.push(format_duration(&activity.duration_at(now), precision));
        assert(texts(content@) =~= running_row_texts(activity@, now, precision));
        rows.push(Row::new(content));
        i += 1;
    }
    activity_table.rows = rows;
    Some(activity_table)
}

/// The texts of the row of a description and a project under a number.
pub open spec fn numbered_row_texts(index: usize, pair: (Seq<char>, Seq<char>)) -> Seq<Seq<char>> {
    seq![seq!['['] + decimal(index as int) + seq![']'], pair.0, pair.1]
}

/// Numbered pairs of strings behind references, as numbered pairs of texts.
pub open spec fn numbered_views(v: Seq<(usize, (&String, &String))>) -> Seq<
    (usize, (Seq<char>, Seq<char>)),
> {
    Seq::new(v.len(), |i: int| (v[i].0, (v[i].1.0@, v[i].1.1@)))
}

/// Whether a table shows some numbered descriptions and projects, one row
/// each, in order; and whether there is no table where there are none.
pub open spec fn is_numbered_table(
    table: Option<Table>,
    numbered: Seq<(usize, (Seq<char>, Seq<char>))>,
) -> bool {
    &&& table is None == (numbered.len() == 0)
    &&& table is Some ==> {
        &&& label_texts(table.unwrap()) == seq![" # "@, "Description"@, "Project"@]
        &&& table.unwrap().column_wraps() == seq![Wrap::NoWrap, Wrap::Wrap, Wrap::Wrap]
        &&& table.unwrap().groups@.len() == 0
        &&& table.unwrap().rows@.len() == numbered.len()
        &&& forall|i: int|
            0 <= i < numbered.len() ==> texts((#[trigger] table.unwrap().rows@[i]).content@)
                == numbered_row_texts(numbered[i].0, numbered[i].1)
                && table.unwrap().rows@[i].style is None
    }
}

/// The table of some descriptions and projects, each under the number
/// that is given with it. There is none where there is nothing to show.
pub fn list_descriptions_and_projects_with_index(
    descriptions_and_projects: &[(usize, (&String, &String))],
) -> (r: Option<Table>)
    ensures
        is_numbered_table(r, numbered_views(descriptions_and_projects@)),
{
    if descriptions_and_projects.len() == 0 {
        return None;
    }
    let mut columns: Vec<Column> = Vec::new();
    columns.push(Column { label: String::from_str(" # "), wrap: Wrap::NoWrap });
    columns.push(Column { label: String::from_str("Description"), wrap: Wrap::Wrap });
    columns.push(Column { label: String::from_str("Project"), wrap: Wrap::Wrap });
    let mut table = Table::new(columns);
    assert(label_texts(table) =~= seq![" # "@, "Description"@, "Project"@]);
    assert(table.column_wraps() =~= seq![Wrap::NoWrap, Wrap::Wrap, Wrap::Wrap]);
    let mut rows: Vec<Row> = Vec::new();
    let mut i: usize = 0;
    while i < descriptions_and_projects.len()
        invariant
            i <= descriptions_and_projects.len(),
            rows@.len() == i,
            forall|k: int|
                0 <= k < i ==> texts((#[trigger] rows@[k]).content@) == numbered_row_texts(
                    descriptions_and_projects@[k].0,
                    (descriptions_and_projects@[k].1.0@, descriptions_and_projects@[k].1.1@),
                ) && rows@[k].style is None,
        decreases descriptions_and_projects.len() - i,
    {
        let (index, (description, project)) = descriptions_and_projects[i];
        let mut number = String::from_str("[");
        proof {
            reveal_strlit("[");
            assert(number@ =~= seq!['[']);
        }
        let ghost front = number@;
        push_digits(&mut number, index as u128);
        assert(number@ =~= front + decimal(index as int));
        number.push(']');
        assert(number@ =~= seq!['['] + decimal(index as int) + seq![']']);
        let mut content: Vec<String> = Vec::new();
        content.push(number);
        content.push(description.clone());
        content.push(project.clone());
        assert(texts(content@) =~= numbered_row_texts(index, (description@, project@)));
        rows.push(Row::new(content));
        i += 1;
    }
    table.rows = rows;
    Some(table)
}

/// Descriptions and projects under the numbers by which they can be taken
/// up again: the last one is number zero, the one before it number one.
pub open spec fn numbered_from_the_end(pairs: Seq<(Seq<char>, Seq<char>)>) -> Seq<
    (usize, (Seq<char>, Seq<char>)),
> {
    Seq::new(pairs.len(), |i: int| ((pairs.len() - 1 - i) as usize, pairs[i]))
}

/// The table of some descriptions and projects, numbered from the end:
/// the last one is number zero. There is none where there is nothing to show.
pub fn list_descriptions_and_projects(descriptions_and_projects: &[(&String, &String)]) -> (r:
    Option<Table>)
    ensures
        is_numbered_table(r, numbered_from_the_end(pair_views(descriptions_and_projects@))),
{
    let n = descriptions_and_projects.len();
    let mut numbered: Vec<(usize, (&String, &String))> = Vec::new();
    let mut i: usize = 0;
    while i < n
        invariant
            i <= n,
            n == descriptions_and_projects@.len(),
            numbered@.len() == i,
            forall|k: int|
                0 <= k < i ==> #[trigger] numbered@[k] == ((n - 1 - k) as usize, descriptions_and_projects@[k]),
        decreases n - i,
    {
        numbered.push((n - 1 - i, descriptions_and_projects[i]));
        i += 1;
    }
    assert(numbered_views(numbered@) =~= numbered_from_the_end(
        pair_views(descriptions_and_projects@),
    ));
    list_descriptions_and_projects_with_index(numbered.as_slice())
}

} // verus!
