//! The report of the time that was spent on each project.
use vstd::prelude::*;
use vstd::string::{StrSliceExecFns, StringExecFns};
use crate::data::activity::{lasted, Activity, ActivityView};
use crate::data::escaping::texts;
use crate::data::getter::activity_views;
use crate::data::text::precedes;
use crate::data::timestamp::{Duration, Precision, Timestamp};
use crate::view::format_util::{duration_text, format_duration};
use crate::view::grouping::{
    distinct_sorted, group_by_text, has_group, is_grouping, keys_of, lemma_places_of_within,
    places_of, str_views,
};
use crate::view::render::{
    filled, is_text, line_width_of, prefix_text, style_infix, style_prefix, suffix_text,
    terminal_width, wrap_text, wrapped_lines, write_fill, TextStyle, DEFAULT_WIDTH,
};

verus! {

/// How far the descriptions stand in from the projects.
pub const REPORT_INDENTATION: usize = 4;

/// The larger of two optional widths; an absent width never wins over a present one.
pub open spec fn max_option(o1: Option<usize>, o2: Option<usize>) -> Option<usize> {
    match (o1, o2) {
        (Some(s1), Some(s2)) => if s1 > s2 {
            o1
        } else {
            o2
        },
        (Some(_), None) => o1,
        (None, _) => o2,
    }
}

/// The larger of two optional widths.
pub fn get_max_option(o1: Option<usize>, o2: Option<usize>) -> (r: Option<usize>)
    ensures
        r == max_option(o1, o2),
{
    if let Some(s1) = o1 {
        if let Some(s2) = o2 {
            if s1 > s2 {
                o1
            } else {
                o2
            }
        } else {
            o1
        }
    } else {
        o2
    }
}

/// A number of nanoseconds as a span: the whole seconds, counted towards
/// zero, and the nanoseconds beyond them.
pub open spec fn duration_of_nanos(n: int) -> Duration {
    let seconds = if n >= 0 {
        n / 1_000_000_000
    } else {
        -((-n) / 1_000_000_000)
    };
    Duration { seconds: seconds as i128, subsec_nanos: (n - seconds * 1_000_000_000) as i32 }
}

/// How long some activities have lasted at the time `now`, all in all, in nanoseconds.
pub open spec fn summed_nanos(activities: Seq<ActivityView>, now: Timestamp) -> int
    decreases activities.len(),
{
    if activities.len() == 0 {
        0
    } else {
        summed_nanos(activities.drop_last(), now) + lasted(activities.last(), now).total_nanos()
    }
}

/// How long some activities have lasted at the time `now`, all in all.
pub open spec fn total_duration(activities: Seq<ActivityView>, now: Timestamp) -> Duration {
    duration_of_nanos(summed_nanos(activities, now))
}

/// The span of some seconds and some nanoseconds, each of either sign.
fn duration_from_parts(seconds: i128, nanos: i128) -> (r: Duration)
    requires
        -0x4000_0000_0000_0000_0000_0000_0000_0000 < seconds
            < 0x4000_0000_0000_0000_0000_0000_0000_0000,
        -0x4000_0000_0000_0000_0000_0000_0000_0000 < nanos
            < 0x4000_0000_0000_0000_0000_0000_0000_0000,
    ensures
        r == duration_of_nanos(seconds * 1_000_000_000 + nanos),
        r.is_regular(),
{
    let carry: i128 = nanos / 1_000_000_000;
    let rest: i128 = nanos % 1_000_000_000;
    let mut whole: i128 = seconds + carry;
    let mut beyond: i128 = rest;
    if whole > 0 && beyond < 0 {
        whole = whole - 1;
        beyond = beyond + 1_000_000_000;
    } else if whole < 0 && beyond > 0 {
        whole = whole + 1;
        beyond = beyond - 1_000_000_000;
    }
    assert(whole * 1_000_000_000 + beyond == seconds * 1_000_000_000 + nanos);
    Duration { seconds: whole, subsec_nanos: beyond as i32 }
}

/// How long some activities have lasted at the time `now`, all in all.
pub fn sum_duration(activities: &[&Activity], now: Timestamp) -> (r: Duration)
    ensures
        r == total_duration(activity_views(activities@), now),
        r.is_regular(),
{
    let ghost whole = activity_views(activities@);
    let mut seconds: i128 = 0;
    let mut nanos: i128 = 0;
    let mut i: usize = 0;
    assert(whole.take(0) =~= Seq::<ActivityView>::empty());
    while i < activities.len()
        invariant
            i <= activities.len(),
            whole == activity_views(activities@),
            seconds * 1_000_000_000 + nanos == summed_nanos(whole.take(i as int), now),
            -17_000_000_000_000 * i <= seconds <= 17_000_000_000_000 * i,
            -1_000_000_000 * i <= nanos <= 1_000_000_000 * i,
        decreases activities.len() - i,
    {
        proof {
            assert(whole.take(i + 1).drop_last() =~= whole.take(i as int));
            assert(whole.take(i + 1).last() == activities@[i as int]@);
        }
        let duration = activities[i].duration_at(now);
        seconds = seconds + duration.seconds;
        nanos = nanos + (duration.subsec_nanos as i128);
        i += 1;
    }
    assert(whole.take(i as int) =~= whole);
    duration_from_parts(seconds, nanos)
}

/// The projects of some activities.
pub open spec fn projects(activities: Seq<ActivityView>) -> Seq<Seq<char>> {
    Seq::new(activities.len(), |i: int| activities[i].project)
}

/// The descriptions of some activities.
pub open spec fn descriptions(activities: Seq<ActivityView>) -> Seq<Seq<char>> {
    Seq::new(activities.len(), |i: int| activities[i].description)
}

/// Of some activities those at the places where `key` stands among their
/// keys, in order.
pub open spec fn members(activities: Seq<ActivityView>, keys: Seq<Seq<char>>, key: Seq<char>) -> Seq<
    ActivityView,
> {
    Seq::new(places_of(keys, key).len(), |j: int| activities[places_of(keys, key)[j] as int])
}

/// The activities of one project, and how long they have lasted all in all.
pub struct ProjectReport<'a> {
    pub project: String,
    pub activities: Vec<&'a Activity>,
    pub duration: Duration,
}

/// The report: for each project its activities and their time, and the
/// time of all.
pub struct Report<'a> {
    pub project_map: Vec<ProjectReport<'a>>,
    pub total_duration: Duration,
}

/// Whether some entries are the projects of some activities: one entry for
/// each project, in the order of the dictionary, with the activities of the
/// project in the order they came in and with the time that these have
/// lasted at the time `now`.
pub open spec fn is_project_map(
    entries: Seq<ProjectReport>,
    activities: Seq<ActivityView>,
    now: Timestamp,
) -> bool {
    &&& Seq::new(entries.len(), |g: int| entries[g].project@) == distinct_sorted(
        projects(activities),
    )
    &&& forall|a: int, b: int|
        0 <= a < b < entries.len() ==> precedes(
            (#[trigger] entries[a]).project@,
            (#[trigger] entries[b]).project@,
        )
    &&& forall|g: int|
        0 <= g < entries.len() ==> {
            &&& activity_views((#[trigger] entries[g]).activities@) == members(
                activities,
                projects(activities),
                entries[g].project@,
            )
            &&& entries[g].activities@.len() > 0
            &&& entries[g].duration == total_duration(activity_views(entries[g].activities@), now)
        }
    &&& forall|i: int|
        0 <= i < activities.len() ==> has_project(entries, (#[trigger] activities[i]).project)
}

/// Whether one of some entries is that of the given project.
pub open spec fn has_project(entries: Seq<ProjectReport>, project: Seq<char>) -> bool {
    exists|g: int| 0 <= g < entries.len() && (#[trigger] entries[g]).project@ == project
}

/// Whether one of some groups is that of the given description.
pub open spec fn has_description(groups: Seq<(String, Vec<&Activity>)>, description: Seq<char>) -> bool {
    exists|g: int| 0 <= g < groups.len() && (#[trigger] groups[g]).0@ == description
}

/// The names of some groups.
pub open spec fn group_names(groups: Seq<(String, Vec<&Activity>)>) -> Seq<Seq<char>> {
    Seq::new(groups.len(), |g: int| groups[g].0@)
}

/// Whether some groups are the descriptions of some activities: one group
/// for each description, in the order of the dictionary, with the
/// activities of that description in the order they came in.
pub open spec fn is_description_map(
    groups: Seq<(String, Vec<&Activity>)>,
    activities: Seq<ActivityView>,
) -> bool {
    &&& group_names(groups) == distinct_sorted(descriptions(activities))
    &&& forall|a: int, b: int|
        0 <= a < b < groups.len() ==> precedes((#[trigger] groups[a]).0@, (#[trigger] groups[b]).0@)
    &&& forall|g: int|
        0 <= g < groups.len() ==> activity_views((#[trigger] groups[g]).1@) == members(
            activities,
            descriptions(activities),
            groups[g].0@,
        ) && groups[g].1@.len() > 0
    &&& forall|i: int|
        0 <= i < activities.len() ==> has_description(
            groups,
            (#[trigger] activities[i]).description,
        )
}

/// The activities at some places.
fn pick<'a>(activities: &[&'a Activity], places: &Vec<usize>) -> (r: Vec<&'a Activity>)
    requires
        forall|j: int| 0 <= j < places@.len() ==> (#[trigger] places@[j]) < activities@.len(),
    ensures
        r@.len() == places@.len(),
        forall|j: int| 0 <= j < places@.len() ==> #[trigger] r@[j] == activities@[places@[j] as int],
{
    let mut picked: Vec<&'a Activity> = Vec::new();
    let mut j: usize = 0;
    while j < places.len()
        invariant
            j <= places.len(),
            picked@.len() == j,
            forall|k: int| 0 <= k < places@.len() ==> (#[trigger] places@[k]) < activities@.len(),
            forall|k: int| 0 <= k < j ==> #[trigger] picked@[k] == activities@[places@[k] as int],
        decreases places.len() - j,
    {
        picked.push(activities[places[j]]);
        j += 1;
    }
    picked
}

/// The activities by their project, the projects in the order of the
/// dictionary, with the time of each project at the time `now`.
pub fn create_project_map<'a>(activities: &[&'a Activity], now: Timestamp) -> (r: Vec<
    ProjectReport<'a>,
>)
    ensures
        is_project_map(r@, activity_views(activities@), now),
{
    let ghost all = activity_views(activities@);
    let mut keys: Vec<&str> = Vec::new();
    let mut i: usize = 0;
    while i < activities.len()
        invariant
            i <= activities.len(),
            keys@.len() == i,
            forall|k: int| 0 <= k < i ==> (#[trigger] keys@[k])@ == activities@[k]@.project,
        decreases activities.len() - i,
    {
        keys.push(activities[i].project.as_str());
        i += 1;
    }
    assert(str_views(keys@) =~= projects(all));
    let groups = group_by_text(&keys);
    assert(all.len() == keys.len());
    let mut project_map: Vec<ProjectReport<'a>> = Vec::new();
    let mut g: usize = 0;
    while g < groups.len()
        invariant
            g <= groups.len(),
            all == activity_views(activities@),
            all.len() <= usize::MAX,
            is_grouping(groups@, projects(all)),
            project_map@.len() == g,
            forall|k: int|
                0 <= k < g ==> {
                    &&& (#[trigger] project_map@[k]).project@ == groups@[k].0@
                    &&& activity_views(project_map@[k].activities@) == members(
                        all,
                        projects(all),
                        groups@[k].0@,
                    )
                    &&& project_map@[k].activities@.len() > 0
                    &&& project_map@[k].duration == total_duration(
                        activity_views(project_map@[k].activities@),
                        now,
                    )
                },
        decreases groups.len() - g,
    {
        proof {
            lemma_places_of_within(projects(all), groups@[g as int].0@);
        }
        let of_project = pick(activities, &groups[g].1);
        assert(activity_views(of_project@) =~= members(all, projects(all), groups@[g as int].0@));
        let duration = sum_duration(of_project.as_slice(), now);
        project_map.push(
            ProjectReport { project: groups[g].0.clone(), activities: of_project, duration },
        );
        g += 1;
    }
    proof {
        assert forall|i: int| 0 <= i < all.len() implies has_project(
            project_map@,
            (#[trigger] all[i]).project,
        ) by {
            assert(projects(all)[i] == all[i].project);
            assert(has_group(groups@, projects(all)[i]));
            let g = choose|g: int|
                0 <= g < groups@.len() && (#[trigger] groups@[g]).0@ == projects(all)[i];
            assert(project_map@[g].project@ == groups@[g].0@);
        }
        assert forall|a: int, b: int| 0 <= a < b < project_map@.len() implies precedes(
            (#[trigger] project_map@[a]).project@,
            (#[trigger] project_map@[b]).project@,
        ) by {
            assert(precedes(groups@[a].0@, groups@[b].0@));
            assert(project_map@[a].project@ == groups@[a].0@);
            assert(project_map@[b].project@ == groups@[b].0@);
        }
        assert(Seq::new(project_map@.len(), |g: int| project_map@[g].project@) =~= keys_of(
            groups@,
        ));
        assert forall|g: int| 0 <= g < project_map@.len() implies {
            &&& activity_views((#[trigger] project_map@[g]).activities@) == members(
                all,
                projects(all),
                project_map@[g].project@,
            )
            &&& project_map@[g].activities@.len() > 0
            &&& project_map@[g].duration == total_duration(
                activity_views(project_map@[g].activities@),
                now,
            )
        } by {
            assert(project_map@[g].project@ == groups@[g].0@);
        }
    }
    project_map
}

/// The activities by their description, the descriptions in the order of
/// the dictionary.
pub fn group_activities_by_description<'a>(activities: &[&'a Activity]) -> (r: Vec<
    (String, Vec<&'a Activity>),
>)
    ensures
        is_description_map(r@, activity_views(activities@)),
{
    let ghost all = activity_views(activities@);
    let mut keys: Vec<&str> = Vec::new();
    let mut i: usize = 0;
    while i < activities.len()
        invariant
            i <= activities.len(),
            keys@.len() == i,
            forall|k: int| 0 <= k < i ==> (#[trigger] keys@[k])@ == activities@[k]@.description,
        decreases activities.len() - i,
    {
        keys.push(activities[i].description.as_str());
        i += 1;
    }
    assert(str_views(keys@) =~= descriptions(all));
    let groups = group_by_text(&keys);
    assert(all.len() == keys.len());
    let mut activity_map: Vec<(String, Vec<&'a Activity>)> = Vec::new();
    let mut g: usize = 0;
    while g < groups.len()
        invariant
            g <= groups.len(),
            all == activity_views(activities@),
            all.len() <= usize::MAX,
            is_grouping(groups@, descriptions(all)),
            activity_map@.len() == g,
            forall|k: int|
                0 <= k < g ==> {
                    &&& (#[trigger] activity_map@[k]).0@ == groups@[k].0@
                    &&& activity_views(activity_map@[k].1@) == members(
                        all,
                        descriptions(all),
                        groups@[k].0@,
                    )
                    &&& activity_map@[k].1@.len() > 0
                },
        decreases groups.len() - g,
    {
        proof {
            lemma_places_of_within(descriptions(all), groups@[g as int].0@);
        }
        let with_description = pick(activities, &groups[g].1);
        assert(activity_views(with_description@) =~= members(
            all,
            descriptions(all),
            groups@[g as int].0@,
        ));
        activity_map.push((groups[g].0.clone(), with_description));
        g += 1;
    }
    proof {
        assert forall|i: int| 0 <= i < all.len() implies has_description(
            activity_map@,
            (#[trigger] all[i]).description,
        ) by {
            assert(descriptions(all)[i] == all[i].description);
            assert(has_group(groups@, descriptions(all)[i]));
            let g = choose|g: int|
                0 <= g < groups@.len() && (#[trigger] groups@[g]).0@ == descriptions(all)[i];
            assert(activity_map@[g].0@ == groups@[g].0@);
        }
        assert forall|a: int, b: int| 0 <= a < b < activity_map@.len() implies precedes(
            (#[trigger] activity_map@[a]).0@,
            (#[trigger] activity_map@[b]).0@,
        ) by {
            assert(precedes(groups@[a].0@, groups@[b].0@));
            assert(activity_map@[a].0@ == groups@[a].0@);
            assert(activity_map@[b].0@ == groups@[b].0@);
        }
        assert(group_names(activity_map@) =~= keys_of(groups@));
        assert forall|g: int| 0 <= g < activity_map@.len() implies activity_views(
            (#[trigger] activity_map@[g]).1@,
        ) == members(all, descriptions(all), activity_map@[g].0@) && activity_map@[g].1@.len()
            > 0 by {
            assert(activity_map@[g].0@ == groups@[g].0@);
        }
    }
    activity_map
}

impl<'a> Report<'a> {
    /// The report of some activities at the time `now`.
    pub fn new(activities: &[&'a Activity], now: Timestamp) -> (r: Report<'a>)
        ensures
            is_project_map(r.project_map@, activity_views(activities@), now),
            r.total_duration == total_duration(activity_views(activities@), now),
    {
        Report {
            project_map: create_project_map(activities, now),
            total_duration: sum_duration(activities, now),
        }
    }
}

/// The width of a description with its indentation, as far as the
/// machine can count.
pub open spec fn indented_width(width: int) -> usize {
    if width + REPORT_INDENTATION > usize::MAX {
        usize::MAX
    } else {
        (width + REPORT_INDENTATION) as usize
    }
}

/// The longest name among the first `upto` projects.
pub open spec fn longest_project_upto(entries: Seq<ProjectReport>, upto: int) -> Option<usize>
    decreases upto,
{
    if upto <= 0 {
        None
    } else {
        max_option(
            longest_project_upto(entries, upto - 1),
            Some(entries[upto - 1].project@.len() as usize),
        )
    }
}

/// The longest description, with its indentation, among the first `upto` activities.
pub open spec fn longest_description_upto(activities: Seq<ActivityView>, upto: int) -> Option<usize>
    decreases upto,
{
    if upto <= 0 {
        None
    } else {
        max_option(
            longest_description_upto(activities, upto - 1),
            Some(indented_width(activities[upto - 1].description.len() as int)),
        )
    }
}

/// The longest description, with its indentation, in the first `upto` projects.
pub open spec fn longest_activity_upto(entries: Seq<ProjectReport>, upto: int) -> Option<usize>
    decreases upto,
{
    if upto <= 0 {
        None
    } else {
        max_option(
            longest_activity_upto(entries, upto - 1),
            longest_description_upto(
                activity_views(entries[upto - 1].activities@),
                entries[upto - 1].activities@.len() as int,
            ),
        )
    }
}

/// The width of the widest line of a report without its times: that of the
/// longest name of a project or of the longest description with its
/// indentation. There is none where the report has no projects.
pub open spec fn longest_line(entries: Seq<ProjectReport>) -> Option<usize> {
    max_option(
        longest_project_upto(entries, entries.len() as int),
        longest_activity_upto(entries, entries.len() as int),
    )
}

/// The width of the widest line of a report without its times.
pub fn get_longest_line(project_map: &Vec<ProjectReport>) -> (r: Option<usize>)
    ensures
        r == longest_line(project_map@),
{
    let mut longest_project_line: Option<usize> = None;
    let mut longest_activity_line: Option<usize> = None;
    let mut g: usize = 0;
    while g < project_map.len()
        invariant
            g <= project_map.len(),
            longest_project_line == longest_project_upto(project_map@, g as int),
            longest_activity_line == longest_activity_upto(project_map@, g as int),
        decreases project_map.len() - g,
    {
        let entry = &project_map[g];
        longest_project_line = get_max_option(
            longest_project_line,
            Some(entry.project.as_str().unicode_len()),
        );
        let mut longest_description: Option<usize> = None;
        let mut i: usize = 0;
        while i < entry.activities.len()
            invariant
                i <= entry.activities.len(),
                longest_description == longest_description_upto(
                    activity_views(entry.activities@),
                    i as int,
                ),
            decreases entry.activities.len() - i,
        {
            let width = entry.activities[i].description.as_str().unicode_len();
            let indented = if width > usize::MAX - REPORT_INDENTATION {
                usize::MAX
            } else {
                width + REPORT_INDENTATION
            };
            longest_description = get_max_option(longest_description, Some(indented));
            i += 1;
        }
        longest_activity_line = get_max_option(longest_activity_line, longest_description);
        g += 1;
    }
    get_max_option(longest_project_line, longest_activity_line)
}

/// The longest time among those of the first `upto` projects, as text.
pub open spec fn longest_project_duration_upto(
    entries: Seq<ProjectReport>,
    precision: Precision,
    upto: int,
) -> Option<usize>
    decreases upto,
{
    if upto <= 0 {
        None
    } else {
        max_option(
            longest_project_duration_upto(entries, precision, upto - 1),
            Some(duration_text(entries[upto - 1].duration, precision).len() as usize),
        )
    }
}

/// The longest time among those of the first `upto` activities, as text.
pub open spec fn longest_lasted_upto(
    activities: Seq<ActivityView>,
    now: Timestamp,
    precision: Precision,
    upto: int,
) -> Option<usize>
    decreases upto,
{
    if upto <= 0 {
        None
    } else {
        max_option(
            longest_lasted_upto(activities, now, precision, upto - 1),
            Some(duration_text(lasted(activities[upto - 1], now), precision).len() as usize),
        )
    }
}

/// The longest time among those of the activities of the first `upto` projects, as text.
pub open spec fn longest_activity_duration_upto(
    entries: Seq<ProjectReport>,
    now: Timestamp,
    precision: Precision,
    upto: int,
) -> Option<usize>
    decreases upto,
{
    if upto <= 0 {
        None
    } else {
        max_option(
            longest_activity_duration_upto(entries, now, precision, upto - 1),
            longest_lasted_upto(
                activity_views(entries[upto - 1].activities@),
                now,
                precision,
                entries[upto - 1].activities@.len() as int,
            ),
        )
    }
}

/// The width of the widest time of a report: that of a project, of an
/// activity or of the whole.
pub open spec fn longest_duration(report: Report, now: Timestamp, precision: Precision) -> Option<
    usize,
> {
    max_option(
        max_option(
            longest_project_duration_upto(
                report.project_map@,
                precision,
                report.project_map@.len() as int,
            ),
            longest_activity_duration_upto(
                report.project_map@,
                now,
                precision,
                report.project_map@.len() as int,
            ),
        ),
        Some(duration_text(report.total_duration, precision).len() as usize),
    )
}

/// The width of the widest time of a report.
pub fn get_longest_duration_string(report: &Report, now: Timestamp, precision: Precision) -> (r:
    Option<usize>)
    ensures
        r == longest_duration(*report, now, precision),
        r is Some,
{
    let mut longest_project_duration: Option<usize> = None;
    let mut longest_activity_duration: Option<usize> = None;
    let mut g: usize = 0;
    while g < report.project_map.len()
        invariant
            g <= report.project_map.len(),
            longest_project_duration == longest_project_duration_upto(
                report.project_map@,
                precision,
                g as int,
            ),
            longest_activity_duration == longest_activity_duration_upto(
                report.project_map@,
                now,
                precision,
                g as int,
            ),
        decreases report.project_map.len() - g,
    {
        let entry = &report.project_map[g];
        longest_project_duration = get_max_option(
            longest_project_duration,
            Some(format_duration(&entry.duration, precision).as_str().unicode_len()),
        );
        let mut longest: Option<usize> = None;
        let mut i: usize = 0;
        while i < entry.activities.len()
            invariant
                i <= entry.activities.len(),
                longest == longest_lasted_upto(
                    activity_views(entry.activities@),
                    now,
                    precision,
                    i as int,
                ),
            decreases entry.activities.len() - i,
        {
            let duration = entry.activities[i].duration_at(now);
            longest = get_max_option(
                longest,
                Some(format_duration(&duration, precision).as_str().unicode_len()),
            );
            i += 1;
        }
        longest_activity_duration = get_max_option(longest_activity_duration, longest);
        g += 1;
    }
    let longest_single_duration = get_max_option(
        longest_project_duration,
        longest_activity_duration,
    );
    let length_of_total_duration = format_duration(
        &report.total_duration,
        precision,
    ).as_str().unicode_len();
    get_max_option(longest_single_duration, Some(length_of_total_duration))
}

/// A line filled up with dots to a width.
pub open spec fn dotted(line: Seq<char>, width: int) -> Seq<char> {
    line + filled('.', width - line.len())
}

/// A text with blanks before it up to a width.
pub open spec fn right_aligned(text: Seq<char>, width: int) -> Seq<char> {
    filled(' ', width - text.len()) + text
}

/// The first `upto` lines of an entry of the report: each line but the
/// last on a line of its own, and the last filled up with dots, with the
/// time of the entry behind it and `end` behind that.
pub open spec fn entry_text(
    lines: Seq<Seq<char>>,
    duration: Seq<char>,
    width: int,
    duration_width: int,
    end: Seq<char>,
    upto: int,
) -> Seq<char>
    decreases upto,
{
    if upto <= 0 {
        Seq::empty()
    } else {
        entry_text(lines, duration, width, duration_width, end, upto - 1) + if upto < lines.len() {
            lines[upto - 1] + seq!['\n']
        } else {
            dotted(lines[upto - 1], width) + seq![' '] + right_aligned(duration, duration_width)
                + end
        }
    }
}

/// The heading of a project: its name, wrapped to the width of a line, in
/// bold, with the time of the project behind it.
pub open spec fn heading_text(
    project: Seq<char>,
    duration: Seq<char>,
    longest_line: int,
    duration_width: int,
) -> Seq<char> {
    let lines = wrapped_lines(project, longest_line, Seq::empty());
    prefix_text(TextStyle::Bold) + entry_text(
        lines,
        duration,
        longest_line,
        duration_width,
        Seq::empty(),
        lines.len() as int,
    ) + suffix_text() + seq!['\n']
}

/// The indentation of the descriptions.
pub open spec fn indentation() -> Seq<char> {
    seq![' ', ' ', ' ', ' ']
}

/// The lines of the first `upto` descriptions of some activities, the
/// descriptions in the order of the dictionary: each description indented
/// and wrapped to the width of a line, with the time behind it that the
/// activities of that description have lasted at the time `now`.
pub open spec fn descriptions_text(
    activities: Seq<ActivityView>,
    now: Timestamp,
    line_width: int,
    duration_width: int,
    precision: Precision,
    upto: int,
) -> Seq<char>
    decreases upto,
{
    if upto <= 0 {
        Seq::empty()
    } else {
        let description = distinct_sorted(descriptions(activities))[upto - 1];
        let lines = wrapped_lines(description, line_width, indentation());
        descriptions_text(activities, now, line_width, duration_width, precision, upto - 1)
            + entry_text(
            lines,
            duration_text(
                total_duration(members(activities, descriptions(activities), description), now),
                precision,
            ),
            line_width,
            duration_width,
            seq!['\n'],
            lines.len() as int,
        )
    }
}

/// The part of the report for one project: its heading, its
/// descriptions, and an empty line.
pub open spec fn project_text(
    entry: ProjectReport,
    now: Timestamp,
    line_width: int,
    duration_width: int,
    precision: Precision,
) -> Seq<char> {
    let activities = activity_views(entry.activities@);
    heading_text(
        entry.project@,
        duration_text(entry.duration, precision),
        line_width,
        duration_width,
    ) + descriptions_text(
        activities,
        now,
        line_width,
        duration_width,
        precision,
        distinct_sorted(descriptions(activities)).len() as int,
    ) + seq!['\n']
}

/// The parts of the report for the first `upto` projects.
pub open spec fn projects_text(
    entries: Seq<ProjectReport>,
    now: Timestamp,
    line_width: int,
    duration_width: int,
    precision: Precision,
    upto: int,
) -> Seq<char>
    decreases upto,
{
    if upto <= 0 {
        Seq::empty()
    } else {
        projects_text(entries, now, line_width, duration_width, precision, upto - 1)
            + project_text(entries[upto - 1], now, line_width, duration_width, precision)
    }
}

/// The last line of the report: the time of all, in bold.
pub open spec fn total_text(duration: Seq<char>, line_width: int) -> Seq<char> {
    prefix_text(TextStyle::Bold) + dotted(seq!['T', 'o', 't', 'a', 'l'], line_width) + seq![' ']
        + duration + suffix_text() + seq!['\n']
}

/// The width of the lines of a report on a terminal of a width, without
/// their times: that of the longest line, or what the terminal leaves
/// beside the times and a blank.
pub open spec fn line_width_on(report: Report, terminal_width: usize, now: Timestamp, precision: Precision) -> int {
    let longest = match longest_line(report.project_map@) {
        Some(width) => width as int,
        None => 0,
    };
    let times = longest_duration(report, now, precision).unwrap() as int;
    if terminal_width < longest + times + 1 {
        terminal_width - times - 1
    } else {
        longest
    }
}

/// A report as text for a terminal of a width.
pub open spec fn report_text(report: Report, terminal_width: usize, now: Timestamp, precision: Precision) -> Seq<char> {
    let line_width = line_width_on(report, terminal_width, now, precision);
    let duration_width = longest_duration(report, now, precision).unwrap() as int;
    projects_text(
        report.project_map@,
        now,
        line_width,
        duration_width,
        precision,
        report.project_map@.len() as int,
    ) + total_text(duration_text(report.total_duration, precision), line_width)
}

/// What is shown of a report on a terminal: its text for the width of the
/// terminal's lines, and nothing where a line has no room for the widest
/// time of the report and a blank.
pub open spec fn report_shown(
    report: Report,
    terminal: Option<usize>,
    now: Timestamp,
    precision: Precision,
) -> Option<Seq<char>> {
    if longest_duration(report, now, precision).unwrap() < line_width_of(terminal) {
        Some(report_text(report, line_width_of(terminal), now, precision))
    } else {
        None
    }
}

/// Writes a line, filled up with dots to a width.
pub fn write_dotted(f: &mut String, line: &str, width: usize)
    ensures
        final(f)@ == old(f)@ + dotted(line@, width as int),
{
    f.append(line);
    let length = line.unicode_len();
    if length < width {
        write_fill(f, '.', width - length);
    } else {
        assert(filled('.', width - line@.len()) =~= Seq::<char>::empty());
    }
    assert(final(f)@ =~= old(f)@ + dotted(line@, width as int));
}

/// Writes a text with blanks before it up to a width.
fn write_right_aligned(f: &mut String, text: &str, width: usize)
    ensures
        final(f)@ == old(f)@ + right_aligned(text@, width as int),
{
    let length = text.unicode_len();
    if length < width {
        write_fill(f, ' ', width - length);
    } else {
        assert(filled(' ', width - text@.len()) =~= Seq::<char>::empty());
    }
    f.append(text);
    assert(final(f)@ =~= old(f)@ + right_aligned(text@, width as int));
}

/// Writes the lines of an entry of the report, the last with the time of
/// the entry behind it.
fn write_entry(
    f: &mut String,
    lines: &Vec<String>,
    duration: &str,
    width: usize,
    duration_width: usize,
    end: &str,
)
    ensures
        final(f)@ == old(f)@ + entry_text(
            texts(lines@),
            duration@,
            width as int,
            duration_width as int,
            end@,
            lines@.len() as int,
        ),
{
    let ghost all = texts(lines@);
    let mut i: usize = 0;
    assert(f@ =~= old(f)@ + entry_text(all, duration@, width as int, duration_width as int, end@, 0));
    while i < lines.len()
        invariant
            i <= lines.len(),
            all == texts(lines@),
            f@ == old(f)@ + entry_text(
                all,
                duration@,
                width as int,
                duration_width as int,
                end@,
                i as int,
            ),
        decreases lines.len() - i,
    {
        let ghost before = f@;
        assert(all[i as int] == lines@[i as int]@);
        if i + 1 < lines.len() {
            f.append(lines[i].as_str());
            f.push('\n');
            assert(f@ =~= before + (all[i as int] + seq!['\n']));
        } else {
            write_dotted(f, lines[i].as_str(), width);
            f.push(' ');
            write_right_aligned(f, duration, duration_width);
            f.append(end);
            assert(f@ =~= before + (dotted(all[i as int], width as int) + seq![' ']
                + right_aligned(duration@, duration_width as int) + end@));
        }
        i += 1;
    }
}

/// Writes the heading of a project.
pub fn print_project_heading(
    f: &mut String,
    project: &str,
    duration: &Duration,
    longest_line: usize,
    duration_width: usize,
    precision: Precision,
)
    ensures
        final(f)@ == old(f)@ + heading_text(
            project@,
            duration_text(*duration, precision),
            longest_line as int,
            duration_width as int,
        ),
{
    f.append(style_prefix(TextStyle::Bold).as_str());
    proof {
        reveal_strlit("");
        assert(""@ =~= Seq::<char>::empty());
    }
    let project_lines = wrap_text(project, longest_line, "");
    write_entry(
        f,
        &project_lines,
        format_duration(duration, precision).as_str(),
        longest_line,
        duration_width,
        "",
    );
    f.append(style_infix(TextStyle::Bold).as_str());
    f.push('\n');
    assert(final(f)@ =~= old(f)@ + heading_text(
        project@,
        duration_text(*duration, precision),
        longest_line as int,
        duration_width as int,
    ));
}

/// Writes the descriptions of the activities of a project, with the time
/// that the activities of each description have lasted.
pub fn print_descriptions_with_durations(
    f: &mut String,
    activities: &[&Activity],
    now: Timestamp,
    line_width: usize,
    duration_width: usize,
    precision: Precision,
)
    ensures
        final(f)@ == old(f)@ + descriptions_text(
            activity_views(activities@),
            now,
            line_width as int,
            duration_width as int,
            precision,
            distinct_sorted(descriptions(activity_views(activities@))).len() as int,
        ),
{
    let ghost all = activity_views(activities@);
    let description_map = group_activities_by_description(activities);
    proof {
        reveal_strlit("    ");
        assert("    "@ =~= indentation());
        reveal_strlit("\n");
        assert("\n"@ =~= seq!['\n']);
    }
    let mut g: usize = 0;
    assert(f@ =~= old(f)@ + descriptions_text(
        all,
        now,
        line_width as int,
        duration_width as int,
        precision,
        0,
    ));
    while g < description_map.len()
        invariant
            g <= description_map.len(),
            all == activity_views(activities@),
            is_description_map(description_map@, all),
            "    "@ == indentation(),
            "\n"@ == seq!['\n'],
            f@ == old(f)@ + descriptions_text(
                all,
                now,
                line_width as int,
                duration_width as int,
                precision,
                g as int,
            ),
        decreases description_map.len() - g,
    {
        let ghost before = f@;
        let description = description_map[g].0.as_str();
        assert(group_names(description_map@)[g as int] == description@);
        let description_duration = sum_duration(description_map[g].1.as_slice(), now);
        let description_lines = wrap_text(description, line_width, "    ");
        write_entry(
            f,
            &description_lines,
            format_duration(&description_duration, precision).as_str(),
            line_width,
            duration_width,
            "\n",
        );
        g += 1;
        assert(f@ =~= old(f)@ + descriptions_text(
            all,
            now,
            line_width as int,
            duration_width as int,
            precision,
            g as int,
        ));
    }
    assert(description_map@.len() == group_names(description_map@).len());
}

/// Writes the time of all, in bold.
pub fn print_total_duration(
    f: &mut String,
    total_duration: Duration,
    line_width: usize,
    precision: Precision,
)
    ensures
        final(f)@ == old(f)@ + total_text(
            duration_text(total_duration, precision),
            line_width as int,
        ),
{
    f.append(style_prefix(TextStyle::Bold).as_str());
    proof {
        reveal_strlit("Total");
        assert("Total"@ =~= seq!['T', 'o', 't', 'a', 'l']);
    }
    write_dotted(f, "Total", line_width);
    f.push(' ');
    f.append(format_duration(&total_duration, precision).as_str());
    f.append(style_infix(TextStyle::Bold).as_str());
    f.push('\n');
    assert(final(f)@ =~= old(f)@ + total_text(
        duration_text(total_duration, precision),
        line_width as int,
    ));
}

impl<'a> Report<'a> {
    /// The report as text for a terminal that is `terminal_width`
    /// characters wide, which has to be wide enough for the widest time
    /// of the report and a blank.
    pub fn render(&self, terminal_width: usize, now: Timestamp, precision: Precision) -> (r: String)
        requires
            longest_duration(*self, now, precision).unwrap() < terminal_width,
        ensures
            r@ == report_text(*self, terminal_width, now, precision),
    {
        let mut longest_line = match get_longest_line(&self.project_map) {
            Some(width) => width,
            None => 0,
        };
        let longest_duration_string = match get_longest_duration_string(self, now, precision) {
            Some(width) => width,
            None => 0,
        };
        if terminal_width - longest_duration_string - 1 < longest_line {
            longest_line = terminal_width - longest_duration_string - 1;
        }
        assert(longest_line == line_width_on(*self, terminal_width, now, precision));

        let mut f = String::new();
        let mut g: usize = 0;
        assert(f@ =~= projects_text(
            self.project_map@,
            now,
            longest_line as int,
            longest_duration_string as int,
            precision,
            0,
        ));
        while g < self.project_map.len()
            invariant
                g <= self.project_map.len(),
                f@ == projects_text(
                    self.project_map@,
                    now,
                    longest_line as int,
                    longest_duration_string as int,
                    precision,
                    g as int,
                ),
            decreases self.project_map.len() - g,
        {
            let ghost before = f@;
            let entry = &self.project_map[g];
            print_project_heading(
                &mut f,
                entry.project.as_str(),
                &entry.duration,
                longest_line,
                longest_duration_string,
                precision,
            );
            print_descriptions_with_durations(
                &mut f,
                entry.activities.as_slice(),
                now,
                longest_line,
                longest_duration_string,
                precision,
            );
            f.push('\n');
            assert(f@ =~= before + project_text(
                *entry,
                now,
                longest_line as int,
                longest_duration_string as int,
                precision,
            ));
            g += 1;
        }
        print_total_duration(&mut f, self.total_duration, longest_line, precision);
        f
    }

    /// The report as text for a terminal that tells the width of its
    /// lines, or tells none: what `report_shown` says.
    pub fn render_on(&self, terminal: Option<usize>, now: Timestamp, precision: Precision) -> (r:
        Option<String>)
        ensures
            is_text(r, report_shown(*self, terminal, now, precision)),
    {
        let width = match terminal {
            Some(width) => width,
            None => DEFAULT_WIDTH,
        };
        match get_longest_duration_string(self, now, precision) {
            Some(times) => {
                if times < width {
                    Some(self.render(width, now, precision))
                } else {
                    None
                }
            },
            None => None,
        }
    }

    /// The report as text for the terminal that the output goes to, or
    /// for a terminal without bounds where it goes elsewhere: what
    /// `report_shown` says for what the terminal tells. There is no text
    /// where the terminal is too narrow for the widest time of the report
    /// and a blank.
    pub fn to_string(&self, now: Timestamp, precision: Precision) -> (r: Option<String>)
        ensures
            exists|terminal: Option<usize>|
                is_text(r, #[trigger] report_shown(*self, terminal, now, precision)),
    {
        let terminal = terminal_width();
        let text = self.render_on(terminal, now, precision);
        assert(is_text(text, report_shown(*self, terminal, now, precision)));
        text
    }
}

/// Whether a text, or the want of one, is what is shown on some terminal
/// of the report of some activities at the time `now`: of their projects
/// in the order of the dictionary, each with its activities and its time,
/// and the time of all.
pub open spec fn is_report_of(
    r: Option<String>,
    activities: Seq<ActivityView>,
    now: Timestamp,
    precision: Precision,
) -> bool {
    exists|report: Report, terminal: Option<usize>|
        {
            &&& is_text(r, #[trigger] report_shown(report, terminal, now, precision))
            &&& is_project_map(report.project_map@, activities, now)
            &&& report.total_duration == total_duration(activities, now)
        }
}

/// The report of some activities at the time `now`, as text for the
/// terminal that the output goes to, or for a terminal without bounds
/// where it goes elsewhere. There is no text where the terminal is too
/// narrow for the widest time of the report and a blank.
pub fn show_activities(activities: &[&Activity], now: Timestamp, precision: Precision) -> (r:
    Option<String>)
    ensures
        is_report_of(r, activity_views(activities@), now, precision),
{
    let report = Report::new(activities, now);
    let text = report.to_string(now, precision);
    proof {
        let terminal = choose|terminal: Option<usize>|
            is_text(text, #[trigger] report_shown(report, terminal, now, precision));
        assert(is_text(text, report_shown(report, terminal, now, precision)));
    }
    text
}

} // verus!
