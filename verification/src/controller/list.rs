//! The commands that list what the log holds: what they show.
use vstd::prelude::*;
use crate::data::activity::{Activity, ActivityView};
use crate::data::bartib_file::{views, Line, LineView};
use vstd::string::StringExecFns;
use crate::data::escaping::texts;
use crate::data::getter::{
    activities, activity_views, descriptions_and_projects, distinct_keeping_last,
    filter_activities, get_activities, get_descriptions_and_projects, get_running_activities,
    pair_views, running, shown, sort_by_start, sorted_by_start, wild_match, wildcard_matches,
    ActivityFilter,
};
use crate::data::activity::lasted;
use crate::data::text::lowercase;
use crate::view::grouping::{distinct_sorted, group_by_text, keys_of, str_views};
use crate::view::list::{list_descriptions_and_projects_with_index, numbered_views};
use crate::view::report::projects;
use crate::data::processor::{process_activities, processed_by_all, ActivityProcessor};
use crate::data::timestamp::{Precision, Timestamp};
use crate::view::list::{
    is_activity_table, is_grouped_table, is_numbered_table, is_running_table,
    list_activities, list_activities_grouped_by_date, list_descriptions_and_projects,
    list_running_activities, numbered_from_the_end,
};
use crate::view::table::Table;

verus! {

/// Where a listing of `length` items begins that shows the last `sub` of
/// them, or all of them where no number is given.
pub open spec fn first_shown(length: int, sub: Option<usize>) -> int {
    match sub {
        Some(s) => if s >= length {
            0
        } else {
            length - s
        },
        None => 0,
    }
}

/// Where a listing of `length` items begins that shows the last `sub` of them.
pub fn get_index_of_first_element(length: usize, sub: Option<usize>) -> (r: usize)
    ensures
        r == first_shown(length as int, sub),
        r <= length,
{
    if let Some(s) = sub {
        length.saturating_sub(s)
    } else {
        0
    }
}

/// Each activity as the processors leave it.
pub open spec fn all_processed(
    processors: Seq<Box<dyn ActivityProcessor>>,
    activities: Seq<ActivityView>,
) -> Seq<ActivityView> {
    Seq::new(activities.len(), |i: int| processed_by_all(processors, activities[i]))
}

/// Of some activities those that a filter lets pass, in the order of their
/// starts, and of these the last ones, as many as the filter asks for.
pub open spec fn selected(activities: Seq<ActivityView>, filter: ActivityFilter) -> Seq<
    ActivityView,
> {
    let sorted = sorted_by_start(shown(activities, filter));
    sorted.skip(first_shown(sorted.len() as int, filter.number_of_activities))
}

/// What a listing of a file shows: the activities of its lines, as the
/// processors leave them, that the filter selects.
pub open spec fn listed(
    lines: Seq<LineView>,
    filter: ActivityFilter,
    processors: Seq<Box<dyn ActivityProcessor>>,
) -> Seq<ActivityView> {
    selected(all_processed(processors, activities(lines)), filter)
}

/// Of some activities those that a filter lets pass, in the order of their
/// starts, and of these the last ones, as many as the filter asks for.
pub fn select_activities<'a>(activities: &'a Vec<Activity>, filter: &'a ActivityFilter) -> (r: Vec<
    &'a Activity,
>)
    ensures
        activity_views(r@) == selected(
            Seq::new(activities@.len(), |i: int| activities@[i]@),
            *filter,
        ),
{
    let mut all: Vec<&'a Activity> = Vec::new();
    let mut i: usize = 0;
    while i < activities.len()
        invariant
            i <= activities.len(),
            all@.len() == i,
            forall|k: int| 0 <= k < i ==> *(#[trigger] all@[k]) == activities@[k],
        decreases activities.len() - i,
    {
        all.push(&activities[i]);
        i += 1;
    }
    assert(activity_views(all@) =~= Seq::new(activities@.len(), |i: int| activities@[i]@));
    let filtered_activities = filter_activities(all, filter);
    let sorted = sort_by_start(&filtered_activities);
    let first_element = get_index_of_first_element(sorted.len(), filter.number_of_activities);
    let mut last_ones: Vec<&'a Activity> = Vec::new();
    let mut k: usize = first_element;
    while k < sorted.len()
        invariant
            first_element <= k <= sorted.len(),
            last_ones@.len() == k - first_element,
            forall|j: int|
                0 <= j < last_ones@.len() ==> #[trigger] last_ones@[j] == sorted@[first_element
                    + j],
        decreases sorted.len() - k,
    {
        last_ones.push(sorted[k]);
        k += 1;
    }
    assert(activity_views(last_ones@) =~= activity_views(sorted@).skip(first_element as int));
    last_ones
}

/// The table of the activities of a file that are running. There is none
/// where no activity is running.
pub fn list_running(file_content: &[Line], now: Timestamp, precision: Precision) -> (r: Option<
    Table,
>)
    ensures
        is_running_table(r, running(activities(views(file_content@))), now, precision),
{
    let running_activities = get_running_activities(file_content);
    list_running_activities(running_activities.as_slice(), now, precision)
}

/// The table of the activities of a file that the filter selects, as the
/// processors leave them, in the order of their starts: in groups by day
/// where `do_group_activities` is set, and else in rows that show the day
/// of the start unless the filter asks for one day only.
pub fn list(
    file_content: &[Line],
    filter: ActivityFilter,
    do_group_activities: bool,
    processors: Vec<Box<dyn ActivityProcessor>>,
    now: Timestamp,
    precision: Precision,
) -> (r: Option<Table>)
    ensures
        do_group_activities ==> is_grouped_table(
            r,
            listed(views(file_content@), filter, processors@),
            now,
            precision,
        ),
        !do_group_activities ==> is_activity_table(
            r,
            listed(views(file_content@), filter, processors@),
            filter.date is None,
            now,
            precision,
        ),
{
    let activities = get_activities(file_content);
    let ghost found = activity_views(activities@);
    let processed_activities = process_activities(activities, processors);
    assert(Seq::new(processed_activities@.len(), |i: int| processed_activities@[i]@)
        =~= all_processed(processors@, found));
    let filtered_activities = select_activities(&processed_activities, &filter);

    if do_group_activities {
        list_activities_grouped_by_date(filtered_activities.as_slice(), now, precision)
    } else {
        let with_start_dates = filter.date.is_none();
        list_activities(filtered_activities.as_slice(), with_start_dates, now, precision)
    }
}

/// What the listing of the last activities shows: the distinct pairs of
/// description and project of a file, the most recent last, and of these
/// the last `number`.
pub open spec fn last_activities(lines: Seq<LineView>, number: usize) -> Seq<
    (Seq<char>, Seq<char>),
> {
    let known = distinct_keeping_last(
        descriptions_and_projects(sorted_by_start(activities(lines))),
    );
    known.skip(first_shown(known.len() as int, Some(number)))
}

/// The table of the descriptions and projects that were worked on last,
/// at most `number` of them, each under the number by which
/// `continue_last_activity` takes it up again. There is none where the
/// file holds no activity.
pub fn list_last_activities(file_content: &[Line], number: usize) -> (r: Option<Table>)
    ensures
        is_numbered_table(r, numbered_from_the_end(last_activities(views(file_content@), number))),
{
    let descriptions_and_projects = get_descriptions_and_projects(file_content);
    let first_element = get_index_of_first_element(descriptions_and_projects.len(), Some(number));
    let mut last_ones: Vec<(&String, &String)> = Vec::new();
    let mut k: usize = first_element;
    while k < descriptions_and_projects.len()
        invariant
            first_element <= k <= descriptions_and_projects.len(),
            last_ones@.len() == k - first_element,
            forall|j: int|
                0 <= j < last_ones@.len() ==> #[trigger] last_ones@[j]
                    == descriptions_and_projects@[first_element + j],
        decreases descriptions_and_projects.len() - k,
    {
        last_ones.push(descriptions_and_projects[k]);
        k += 1;
    }
    assert(pair_views(last_ones@) =~= pair_views(descriptions_and_projects@).skip(
        first_element as int,
    ));
    list_descriptions_and_projects(last_ones.as_slice())
}

/// The lines that hold no activity, in order.
pub open spec fn unreadable(lines: Seq<LineView>) -> Seq<LineView>
    decreases lines.len(),
{
    if lines.len() == 0 {
        Seq::empty()
    } else {
        let before = unreadable(lines.drop_last());
        if lines.last().activity is Err {
            before.push(lines.last())
        } else {
            before
        }
    }
}

/// Line behind references, as views.
pub open spec fn line_views(v: Seq<&Line>) -> Seq<LineView> {
    Seq::new(v.len(), |i: int| v[i]@)
}

/// The lines of a file that could not be read as activities, in order.
pub fn check<'a>(file_content: &'a [Line]) -> (r: Vec<&'a Line>)
    ensures
        line_views(r@) == unreadable(views(file_content@)),
{
    let ghost whole = views(file_content@);
    let mut found: Vec<&'a Line> = Vec::new();
    let mut i: usize = 0;
    assert(whole.take(0) =~= Seq::<LineView>::empty());
    assert(line_views(found@) =~= Seq::<LineView>::empty());
    while i < file_content.len()
        invariant
            i <= file_content.len(),
            whole == views(file_content@),
            line_views(found@) == unreadable(whole.take(i as int)),
        decreases file_content.len() - i,
    {
        let line = &file_content[i];
        let ghost before = line_views(found@);
        proof {
            let next = whole.take(i + 1);
            assert(next.drop_last() =~= whole.take(i as int));
            assert(next.last() == line@);
        }
        if line.activity.is_err() {
            found.push(line);
            assert(line_views(found@) =~= before.push(line@));
        }
        i += 1;
    }
    assert(whole.take(i as int) =~= whole);
    found
}

/// The projects of the activities of a file, or of those that are
/// running where `current` is set: each project once, in the order of the
/// dictionary.
pub fn list_projects(file_content: &[Line], current: bool) -> (r: Vec<String>)
    ensures
        texts(r@) == distinct_sorted(
            projects(
                if current {
                    running(activities(views(file_content@)))
                } else {
                    activities(views(file_content@))
                },
            ),
        ),
{
    let found = if current {
        get_running_activities(file_content)
    } else {
        get_activities(file_content)
    };
    let mut all_projects: Vec<&str> = Vec::new();
    let mut i: usize = 0;
    while i < found.len()
        invariant
            i <= found.len(),
            all_projects@.len() == i,
            forall|k: int| 0 <= k < i ==> (#[trigger] all_projects@[k])@ == found@[k]@.project,
        decreases found.len() - i,
    {
        all_projects.push(found[i].project.as_str());
        i += 1;
    }
    assert(str_views(all_projects@) =~= projects(activity_views(found@)));
    let groups = group_by_text(&all_projects);
    let mut names: Vec<String> = Vec::new();
    let mut g: usize = 0;
    while g < groups.len()
        invariant
            g <= groups.len(),
            names@.len() == g,
            forall|k: int| 0 <= k < g ==> (#[trigger] names@[k])@ == groups@[k].0@,
        decreases groups.len() - g,
    {
        names.push(groups[g].0.clone());
        g += 1;
    }
    assert(texts(names@) =~= keys_of(groups@));
    names
}

/// The pattern that a search term stands for: the term in small letters
/// anywhere in a text. Without a term, the pattern of the empty text.
pub open spec fn search_pattern(search_term: Option<&str>) -> Seq<char> {
    match search_term {
        Some(term) => seq!['*'] + lowercase(term@) + seq!['*'],
        None => Seq::empty(),
    }
}

/// Whether a search finds a description and a project: the pattern
/// matches one of them in small letters.
pub open spec fn is_found(pair: (Seq<char>, Seq<char>), pattern: Seq<char>) -> bool {
    wildcard_matches(pattern, lowercase(pair.0)) || wildcard_matches(pattern, lowercase(pair.1))
}

/// Of the first `upto` descriptions and projects those that a search
/// finds, each under its number from the end.
pub open spec fn found_upto(pairs: Seq<(Seq<char>, Seq<char>)>, pattern: Seq<char>, upto: int) -> Seq<
    (usize, (Seq<char>, Seq<char>)),
>
    decreases upto,
{
    if upto <= 0 {
        Seq::empty()
    } else {
        let before = found_upto(pairs, pattern, upto - 1);
        if is_found(pairs[upto - 1], pattern) {
            before.push(((pairs.len() - upto) as usize, pairs[upto - 1]))
        } else {
            before
        }
    }
}

/// The table of the descriptions and projects of a file that hold the
/// search term, in small or capital letters, each under the number by
/// which `continue_last_activity` takes it up again. There is none where
/// nothing is found.
pub fn search(file_content: &[Line], search_term: Option<&str>) -> (r: Option<Table>)
    ensures
        ({
            let known = distinct_keeping_last(
                descriptions_and_projects(sorted_by_start(activities(views(file_content@)))),
            );
            is_numbered_table(
                r,
                found_upto(known, search_pattern(search_term), known.len() as int),
            )
        }),
{
    let pattern = match search_term {
        Some(term) => {
            let mut pattern = String::from_str("*");
            proof {
                reveal_strlit("*");
                assert(pattern@ =~= seq!['*']);
            }
            pattern.append(term.to_lowercase().as_str());
            pattern.push('*');
            assert(pattern@ =~= search_pattern(search_term));
            pattern
        },
        None => String::new(),
    };
    let descriptions_and_projects = get_descriptions_and_projects(file_content);
    let ghost known = pair_views(descriptions_and_projects@);
    let n = descriptions_and_projects.len();
    let mut matches: Vec<(usize, (&String, &String))> = Vec::new();
    let mut i: usize = 0;
    assert(numbered_views(matches@) =~= found_upto(known, pattern@, 0));
    while i < n
        invariant
            i <= n,
            n == descriptions_and_projects@.len(),
            known == pair_views(descriptions_and_projects@),
            numbered_views(matches@) == found_upto(known, pattern@, i as int),
        decreases n - i,
    {
        let (description, project) = descriptions_and_projects[i];
        let ghost before = numbered_views(matches@);
        assert(known[i as int] == (description@, project@));
        if wild_match(pattern.as_str(), description.as_str().to_lowercase().as_str()) || wild_match(
            pattern.as_str(),
            project.as_str().to_lowercase().as_str(),
        ) {
            matches.push((n - 1 - i, (description, project)));
            assert(numbered_views(matches@) =~= before.push(
                ((n - 1 - i) as usize, (description@, project@)),
            ));
        }
        i += 1;
    }
    list_descriptions_and_projects_with_index(matches.as_slice())
}

/// Where a time goes into times that are in order: behind all that are no later.
pub open spec fn place_among(sorted: Seq<Timestamp>, time: Timestamp) -> int
    decreases sorted.len(),
{
    if sorted.len() == 0 {
        0
    } else if time.earlier(sorted.last()) {
        place_among(sorted.drop_last(), time)
    } else {
        sorted.len() as int
    }
}

/// The times at some places.
pub open spec fn times_at(times: Seq<Timestamp>, places: Seq<usize>) -> Seq<Timestamp> {
    Seq::new(places.len(), |j: int| times[places[j] as int])
}

/// The places of some times in the order of the times; the places of
/// equal times stay in order.
pub open spec fn sorted_places(times: Seq<Timestamp>) -> Seq<usize>
    decreases times.len(),
{
    if times.len() == 0 {
        Seq::empty()
    } else {
        let before = sorted_places(times.drop_last());
        before.insert(
            place_among(times_at(times, before), times.last()),
            (times.len() - 1) as usize,
        )
    }
}

/// The places of some times in the order of the times; the places of
/// equal times stay in order.
pub fn sort_places(times: &Vec<Timestamp>) -> (r: Vec<usize>)
    ensures
        r@ == sorted_places(times@),
        r@.len() == times@.len(),
        forall|j: int| 0 <= j < r@.len() ==> (#[trigger] r@[j]) < times@.len(),
{
    let mut places: Vec<usize> = Vec::new();
    let mut i: usize = 0;
    assert(times@.take(0) =~= Seq::<Timestamp>::empty());
    while i < times.len()
        invariant
            i <= times.len(),
            places@.len() == i,
            forall|j: int| 0 <= j < places@.len() ==> (#[trigger] places@[j]) < i,
            places@ == sorted_places(times@.take(i as int)),
        decreases times.len() - i,
    {
        let ghost before = places@;
        let ghost seen = times@.take(i as int);
        let ghost next = times@.take(i + 1);
        proof {
            assert(next.drop_last() =~= seen);
            assert(next.last() == times@[i as int]);
            assert(times_at(next, before) =~= times_at(times@, before)) by {
                assert forall|j: int| 0 <= j < before.len() implies times_at(next, before)[j]
                    == times_at(times@, before)[j] by {
                    assert(before[j] < i);
                }
            }
        }
        let ghost ordered = times_at(times@, before);
        let mut at: usize = places.len();
        assert(ordered.take(at as int) =~= ordered);
        while at > 0 && times[i].is_before(&times[places[at - 1]])
            invariant
                at <= places.len(),
                i < times.len(),
                places@ == before,
                ordered == times_at(times@, before),
                forall|j: int| 0 <= j < before.len() ==> (#[trigger] before[j]) < i,
                place_among(ordered, times@[i as int]) == place_among(
                    ordered.take(at as int),
                    times@[i as int],
                ),
            decreases at,
        {
            proof {
                let part = ordered.take(at as int);
                assert(part.last() == times@[before[at - 1] as int]);
                assert(part.drop_last() =~= ordered.take(at - 1));
            }
            at -= 1;
        }
        proof {
            let part = ordered.take(at as int);
            if at > 0 {
                assert(part.last() == times@[before[at - 1] as int]);
            }
            assert(place_among(part, times@[i as int]) == at);
        }
        places.insert(at, i);
        assert forall|j: int| 0 <= j < places@.len() implies (#[trigger] places@[j]) < i + 1 by {
            if j < at {
                assert(places@[j] == before[j]);
            } else if j > at {
                assert(places@[j] == before[j - 1]);
            }
        }
        i += 1;
    }
    assert(times@.take(i as int) =~= times@);
    places
}

/// Something unusual about an activity.
#[derive(Debug)]
pub struct Finding<'a> {
    /// The number of the line of the activity, or zero where it has none.
    pub line_number: usize,
    pub activity: &'a Activity,
    /// The activity ends before it starts.
    pub negative_duration: bool,
    /// The activity starts before another one, which started no later, has ended.
    pub started_before_end: bool,
}

/// A finding with its activity as a view.
pub struct FindingView {
    pub line_number: usize,
    pub activity: ActivityView,
    pub negative_duration: bool,
    pub started_before_end: bool,
}

/// Findings as views.
pub open spec fn finding_views(v: Seq<Finding>) -> Seq<FindingView> {
    Seq::new(
        v.len(),
        |i: int|
            FindingView {
                line_number: v[i].line_number,
                activity: v[i].activity@,
                negative_duration: v[i].negative_duration,
                started_before_end: v[i].started_before_end,
            },
    )
}

/// The latest end so far, once an activity has been looked at: the later
/// one of its end and the latest end before it.
pub open spec fn next_end(last_end: Option<Timestamp>, activity: ActivityView) -> Option<Timestamp> {
    match last_end {
        Some(e) => match activity.end {
            Some(this_end) => if e.earlier(this_end) {
                Some(this_end)
            } else {
                last_end
            },
            None => last_end,
        },
        None => activity.end,
    }
}

/// The latest end among the first `upto` of some activities.
pub open spec fn end_before(ordered: Seq<ActivityView>, upto: int) -> Option<Timestamp>
    decreases upto,
{
    if upto <= 0 {
        None
    } else {
        next_end(end_before(ordered, upto - 1), ordered[upto - 1])
    }
}

/// Whether an activity starts before the latest end so far.
pub open spec fn starts_before(last_end: Option<Timestamp>, activity: ActivityView) -> bool {
    last_end is Some && activity.start.earlier(last_end.unwrap())
}

/// The lines that hold an activity, in order.
pub open spec fn readable(lines: Seq<LineView>) -> Seq<LineView>
    decreases lines.len(),
{
    if lines.len() == 0 {
        Seq::empty()
    } else {
        let before = readable(lines.drop_last());
        if lines.last().activity is Ok {
            before.push(lines.last())
        } else {
            before
        }
    }
}

/// The starts of the activities of some lines that hold one.
pub open spec fn starts_of(lines: Seq<LineView>) -> Seq<Timestamp> {
    Seq::new(lines.len(), |i: int| lines[i].activity.unwrap().start)
}

/// The lines that hold an activity, in the order of the starts of their
/// activities.
pub open spec fn by_start(lines: Seq<LineView>) -> Seq<LineView> {
    let held = readable(lines);
    let places = sorted_places(starts_of(held));
    Seq::new(places.len(), |j: int| held[places[j] as int])
}

/// The findings among the first `upto` of some lines, which hold
/// activities and are in the order of their starts: a finding for each
/// activity that ends before it starts, or that starts before an activity
/// before it has ended.
pub open spec fn findings_upto(ordered: Seq<LineView>, now: Timestamp, upto: int) -> Seq<FindingView>
    decreases upto,
{
    if upto <= 0 {
        Seq::empty()
    } else {
        let before = findings_upto(ordered, now, upto - 1);
        let activity = ordered[upto - 1].activity.unwrap();
        let last_end = end_before(Seq::new(ordered.len(), |i: int| ordered[i].activity.unwrap()), upto - 1);
        let negative = lasted(activity, now).is_negative();
        let early = starts_before(last_end, activity);
        if negative || early {
            before.push(
                FindingView {
                    line_number: match ordered[upto - 1].line_number {
                        Some(n) => n,
                        None => 0,
                    },
                    activity,
                    negative_duration: negative,
                    started_before_end: early,
                },
            )
        } else {
            before
        }
    }
}

/// What is unusual about an activity: whether it ends before it starts,
/// and whether it starts before the latest end of the activities before it.
pub fn check_sanity(last_end: Option<Timestamp>, activity: &Activity, now: Timestamp) -> (r: (
    bool,
    bool,
))
    ensures
        r.0 == lasted(activity@, now).is_negative(),
        r.1 == starts_before(last_end, activity@),
{
    let negative = activity.duration_at(now).has_negative_millis();
    let early = match last_end {
        Some(e) => activity.start.is_before(&e),
        None => false,
    };
    (negative, early)
}

/// What is unusual about the activities of a file at the time `now`,
/// looked at in the order of their starts.
pub fn sanity_check<'a>(file_content: &'a [Line], now: Timestamp) -> (r: Vec<Finding<'a>>)
    ensures
        finding_views(r@) == findings_upto(
            by_start(views(file_content@)),
            now,
            by_start(views(file_content@)).len() as int,
        ),
{
    let ghost whole = views(file_content@);
    let mut held: Vec<&'a Line> = Vec::new();
    let mut times: Vec<Timestamp> = Vec::new();
    let mut i: usize = 0;
    assert(whole.take(0) =~= Seq::<LineView>::empty());
    assert(line_views(held@) =~= Seq::<LineView>::empty());
    while i < file_content.len()
        invariant
            i <= file_content.len(),
            whole == views(file_content@),
            line_views(held@) == readable(whole.take(i as int)),
            times@.len() == held@.len(),
            forall|k: int|
                0 <= k < held@.len() ==> (#[trigger] held@[k]).activity is Ok
                    && held@[k].activity.unwrap().start == times@[k],
        decreases file_content.len() - i,
    {
        let line = &file_content[i];
        let ghost before = line_views(held@);
        proof {
            assert(whole.take(i + 1).drop_last() =~= whole.take(i as int));
            assert(whole.take(i + 1).last() == line@);
        }
        match &line.activity {
            Ok(activity) => {
                held.push(line);
                times.push(activity.start);
                assert(line_views(held@) =~= before.push(line@));
            },
            Err(_) => {},
        }
        i += 1;
    }
    assert(whole.take(i as int) =~= whole);
    assert(times@ =~= starts_of(line_views(held@)));
    let places = sort_places(&times);
    let ghost ordered = by_start(whole);
    assert(ordered.len() == places@.len());
    let ghost activities = Seq::new(ordered.len(), |i: int| ordered[i].activity.unwrap());

    let mut found: Vec<Finding<'a>> = Vec::new();
    let mut last_end: Option<Timestamp> = None;
    let mut k: usize = 0;
    assert(finding_views(found@) =~= findings_upto(ordered, now, 0));
    while k < places.len()
        invariant
            k <= places.len(),
            ordered == by_start(whole),
            ordered.len() == places@.len(),
            activities == Seq::new(ordered.len(), |i: int| ordered[i].activity.unwrap()),
            forall|j: int| 0 <= j < places@.len() ==> (#[trigger] places@[j]) < held@.len(),
            forall|j: int|
                0 <= j < places@.len() ==> ordered[j] == (#[trigger] held@[places@[j] as int])@,
            forall|j: int| 0 <= j < held@.len() ==> (#[trigger] held@[j]).activity is Ok,
            last_end == end_before(activities, k as int),
            finding_views(found@) == findings_upto(ordered, now, k as int),
        decreases places.len() - k,
    {
        let line = held[places[k]];
        let ghost before = finding_views(found@);
        assert(ordered[k as int] == line@);
        match &line.activity {
            Ok(activity) => {
                assert(activities[k as int] == activity@);
                let (negative, early) = check_sanity(last_end, activity, now);
                if negative || early {
                    let line_number = match line.line_number {
                        Some(n) => n,
                        None => 0,
                    };
                    found.push(
                        Finding {
                            line_number,
                            activity,
                            negative_duration: negative,
                            started_before_end: early,
                        },
                    );
                    assert(finding_views(found@) =~= before.push(
                        FindingView {
                            line_number,
                            activity: activity@,
                            negative_duration: negative,
                            started_before_end: early,
                        },
                    ));
                }
                last_end = match last_end {
                    Some(e) => match activity.end {
                        Some(this_end) => if e.is_before(&this_end) {
                            Some(this_end)
                        } else {
                            last_end
                        },
                        None => last_end,
                    },
                    None => activity.end,
                };
            },
            Err(_) => {
                assert(false);
            },
        }
        k += 1;
    }
    found
}

} // verus!
