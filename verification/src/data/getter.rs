//! What the commands pick from the lines of a log.
use vstd::prelude::*;
use crate::data::activity::{Activity, ActivityView};
use crate::data::bartib_file::{views, Line, LineView};
use crate::data::timestamp::{Date, Timestamp};

verus! {

/// Which activities a listing shows.
pub struct ActivityFilter<'a> {
    /// At most this many, the latest ones.
    pub number_of_activities: Option<usize>,
    /// None that started before this day.
    pub from_date: Option<Date>,
    /// None that started after this day.
    pub to_date: Option<Date>,
    /// Only those that started on this day, whatever `from_date` and `to_date` say.
    pub date: Option<Date>,
    /// Only those whose project the pattern matches: `?` stands for one
    /// character and `*` for any number of them.
    pub project: Option<&'a str>,
}

/// Activities behind references, as their views.
pub open spec fn activity_views(v: Seq<&Activity>) -> Seq<ActivityView> {
    Seq::new(v.len(), |i: int| v[i]@)
}

/// The activities that the lines hold, in the order of the lines.
pub open spec fn activities(lines: Seq<LineView>) -> Seq<ActivityView>
    decreases lines.len(),
{
    if lines.len() == 0 {
        Seq::empty()
    } else {
        let before = activities(lines.drop_last());
        match lines.last().activity {
            Ok(activity) => before.push(activity),
            Err(_) => before,
        }
    }
}

/// The activities that have no end, in order.
pub open spec fn running(activities: Seq<ActivityView>) -> Seq<ActivityView>
    decreases activities.len(),
{
    if activities.len() == 0 {
        Seq::empty()
    } else {
        let before = running(activities.drop_last());
        if activities.last().end is None {
            before.push(activities.last())
        } else {
            before
        }
    }
}

/// The activities that have an end, in order.
pub open spec fn stopped(activities: Seq<ActivityView>) -> Seq<ActivityView>
    decreases activities.len(),
{
    if activities.len() == 0 {
        Seq::empty()
    } else {
        let before = stopped(activities.drop_last());
        if activities.last().end is Some {
            before.push(activities.last())
        } else {
            before
        }
    }
}

/// The place of the latest of some times, the last of them if several are
/// the latest. Zero where there are no times.
pub open spec fn last_latest(times: Seq<Timestamp>) -> int
    decreases times.len(),
{
    if times.len() <= 1 {
        0
    } else {
        let before = last_latest(times.drop_last());
        if times.last().earlier(times[before]) {
            before
        } else {
            times.len() - 1
        }
    }
}

/// The place that `last_latest` gives holds a time that none is later than,
/// and every time behind it is earlier.
pub proof fn lemma_last_latest(times: Seq<Timestamp>)
    requires
        times.len() > 0,
    ensures
        0 <= last_latest(times) < times.len(),
        forall|j: int|
            0 <= j < times.len() ==> !times[last_latest(times)].earlier(#[trigger] times[j]),
        forall|j: int|
            last_latest(times) < j < times.len() ==> (#[trigger] times[j]).earlier(
                times[last_latest(times)],
            ),
    decreases times.len(),
{
    if times.len() > 1 {
        let shorter = times.drop_last();
        lemma_last_latest(shorter);
        let before = last_latest(shorter);
        assert forall|j: int| 0 <= j < times.len() implies !times[last_latest(times)].earlier(
            #[trigger] times[j],
        ) by {
            if j < shorter.len() {
                assert(shorter[j] == times[j]);
            }
        }
        assert forall|j: int| last_latest(times) < j < times.len() implies (
        #[trigger] times[j]).earlier(times[last_latest(times)]) by {
            if j < shorter.len() {
                assert(shorter[j] == times[j]);
            }
        }
    }
}

/// The starts of some activities.
pub open spec fn starts(activities: Seq<ActivityView>) -> Seq<Timestamp> {
    Seq::new(activities.len(), |i: int| activities[i].start)
}

/// The ends of some activities that have one.
pub open spec fn ends(activities: Seq<ActivityView>) -> Seq<Timestamp> {
    Seq::new(activities.len(), |i: int| activities[i].end.unwrap())
}

/// The activities that the lines hold, in the order of the lines. Lines
/// that hold none are passed over.
pub fn get_activities<'a>(file_content: &'a [Line]) -> (r: Vec<&'a Activity>)
    ensures
        activity_views(r@) == activities(views(file_content@)),
{
    let mut found: Vec<&'a Activity> = Vec::new();
    let mut i: usize = 0;
    assert(views(file_content@).take(0) =~= Seq::<LineView>::empty());
    assert(activity_views(found@) =~= Seq::<ActivityView>::empty());
    while i < file_content.len()
        invariant
            i <= file_content.len(),
            activity_views(found@) == activities(views(file_content@).take(i as int)),
        decreases file_content.len() - i,
    {
        let ghost before = activity_views(found@);
        proof {
            let next = views(file_content@).take(i + 1);
            assert(next.drop_last() =~= views(file_content@).take(i as int));
            assert(next.last() == file_content@[i as int]@);
        }
        match &file_content[i].activity {
            Ok(activity) => {
                found.push(activity);
                assert(activity_views(found@) =~= before.push(activity@));
            },
            Err(_) => {},
        }
        i += 1;
    }
    assert(views(file_content@).take(i as int) =~= views(file_content@));
    found
}

/// The activities of the lines that have not been stopped, in the order of the lines.
#[must_use]
pub fn get_running_activities<'a>(file_content: &'a [Line]) -> (r: Vec<&'a Activity>)
    ensures
        activity_views(r@) == running(activities(views(file_content@))),
{
    let all = get_activities(file_content);
    let ghost whole = activity_views(all@);
    let mut found: Vec<&'a Activity> = Vec::new();
    let mut i: usize = 0;
    assert(whole.take(0) =~= Seq::<ActivityView>::empty());
    assert(activity_views(found@) =~= Seq::<ActivityView>::empty());
    while i < all.len()
        invariant
            i <= all.len(),
            whole == activity_views(all@),
            activity_views(found@) == running(whole.take(i as int)),
        decreases all.len() - i,
    {
        let ghost before = activity_views(found@);
        proof {
            let next = whole.take(i + 1);
            assert(next.drop_last() =~= whole.take(i as int));
            assert(next.last() == all@[i as int]@);
        }
        if !all[i].is_stopped() {
            found.push(all[i]);
            assert(activity_views(found@) =~= before.push(all@[i as int]@));
        }
        i += 1;
    }
    assert(whole.take(i as int) =~= whole);
    found
}

/// The place of the latest of some times, the last of them if several are the latest.
pub fn index_of_last_latest(times: &Vec<Timestamp>) -> (r: usize)
    requires
        times.len() > 0,
    ensures
        r == last_latest(times@),
        r < times.len(),
{
    let mut best: usize = 0;
    let mut i: usize = 1;
    assert(times@.take(1).len() == 1);
    while i < times.len()
        invariant
            1 <= i <= times.len(),
            best < i,
            best == last_latest(times@.take(i as int)),
        decreases times.len() - i,
    {
        proof {
            let next = times@.take(i + 1);
            assert(next.drop_last() =~= times@.take(i as int));
            assert(next.last() == times@[i as int]);
            assert(next[best as int] == times@[best as int]);
        }
        if !times[i].is_before(&times[best]) {
            best = i;
        }
        i += 1;
    }
    assert(times@.take(i as int) =~= times@);
    best
}

/// The activity that started last; of several that started at that time, the
/// one on the last line.
#[must_use]
pub fn get_last_activity_by_start<'a>(file_content: &'a [Line]) -> (r: Option<&'a Activity>)
    ensures
        ({
            let all = activities(views(file_content@));
            match r {
                None => all.len() == 0,
                Some(activity) => all.len() > 0 && activity@ == all[last_latest(starts(all))],
            }
        }),
{
    let all = get_activities(file_content);
    if all.len() == 0 {
        return None;
    }
    let mut times: Vec<Timestamp> = Vec::new();
    let mut i: usize = 0;
    while i < all.len()
        invariant
            i <= all.len(),
            times.len() == i,
            forall|k: int| 0 <= k < i ==> #[trigger] times@[k] == all@[k]@.start,
        decreases all.len() - i,
    {
        times.push(all[i].start);
        i += 1;
    }
    assert(times@ =~= starts(activity_views(all@)));
    let at = index_of_last_latest(&times);
    Some(all[at])
}

/// The activity that was stopped last; of several that were stopped at that
/// time, the one on the last line.
#[must_use]
pub fn get_last_activity_by_end<'a>(file_content: &'a [Line]) -> (r: Option<&'a Activity>)
    ensures
        ({
            let done = stopped(activities(views(file_content@)));
            match r {
                None => done.len() == 0,
                Some(activity) => done.len() > 0 && activity@ == done[last_latest(ends(done))],
            }
        }),
{
    let all = get_activities(file_content);
    let ghost whole = activity_views(all@);
    let mut done: Vec<&'a Activity> = Vec::new();
    let mut times: Vec<Timestamp> = Vec::new();
    let mut i: usize = 0;
    assert(whole.take(0) =~= Seq::<ActivityView>::empty());
    assert(activity_views(done@) =~= Seq::<ActivityView>::empty());
    while i < all.len()
        invariant
            i <= all.len(),
            whole == activity_views(all@),
            activity_views(done@) == stopped(whole.take(i as int)),
            times.len() == done.len(),
            forall|k: int|
                0 <= k < done.len() ==> (#[trigger] done@[k])@.end == Some(times@[k]),
        decreases all.len() - i,
    {
        let ghost before = activity_views(done@);
        proof {
            let next = whole.take(i + 1);
            assert(next.drop_last() =~= whole.take(i as int));
            assert(next.last() == all@[i as int]@);
        }
        match all[i].end {
            Some(end) => {
                done.push(all[i]);
                times.push(end);
                assert(activity_views(done@) =~= before.push(all@[i as int]@));
            },
            None => {},
        }
        i += 1;
    }
    assert(whole.take(i as int) =~= whole);
    if done.len() == 0 {
        return None;
    }
    assert(times@ =~= ends(activity_views(done@))) by {
        assert forall|k: int| 0 <= k < times.len() implies times@[k] == ends(
            activity_views(done@),
        )[k] by {
            assert(done@[k]@.end == Some(times@[k]));
        }
    }
    let at = index_of_last_latest(&times);
    Some(done[at])
}

/// Where an activity that starts at `start` goes into activities that are in
/// the order of their starts: behind all that start no later.
pub open spec fn insertion_point(sorted: Seq<ActivityView>, start: Timestamp) -> int
    decreases sorted.len(),
{
    if sorted.len() == 0 {
        0
    } else if start.earlier(sorted.last().start) {
        insertion_point(sorted.drop_last(), start)
    } else {
        sorted.len() as int
    }
}

/// Activities in the order of their starts; those that start at the same
/// time stay in the order they came in.
pub open spec fn sorted_by_start(activities: Seq<ActivityView>) -> Seq<ActivityView>
    decreases activities.len(),
{
    if activities.len() == 0 {
        Seq::empty()
    } else {
        let before = sorted_by_start(activities.drop_last());
        before.insert(insertion_point(before, activities.last().start), activities.last())
    }
}

/// Whether no activity starts earlier than one before it.
pub open spec fn is_ordered_by_start(activities: Seq<ActivityView>) -> bool {
    forall|i: int, j: int|
        0 <= i <= j < activities.len() ==> !(#[trigger] activities[j]).start.earlier(
            (#[trigger] activities[i]).start,
        )
}

/// Where an activity goes into activities in the order of their starts:
/// all before the place start no later, all from the place on start later.
pub proof fn lemma_insertion_point(sorted: Seq<ActivityView>, start: Timestamp)
    requires
        is_ordered_by_start(sorted),
    ensures
        0 <= insertion_point(sorted, start) <= sorted.len(),
        forall|i: int|
            0 <= i < insertion_point(sorted, start) ==> !start.earlier((#[trigger] sorted[i]).start),
        forall|i: int|
            insertion_point(sorted, start) <= i < sorted.len() ==> start.earlier(
                (#[trigger] sorted[i]).start,
            ),
    decreases sorted.len(),
{
    if sorted.len() > 0 {
        let shorter = sorted.drop_last();
        assert forall|i: int, j: int| 0 <= i <= j < shorter.len() implies !(
        #[trigger] shorter[j]).start.earlier((#[trigger] shorter[i]).start) by {
            assert(shorter[i] == sorted[i] && shorter[j] == sorted[j]);
        }
        if start.earlier(sorted.last().start) {
            lemma_insertion_point(shorter, start);
            assert forall|i: int| 0 <= i < insertion_point(sorted, start) implies !start.earlier(
                (#[trigger] sorted[i]).start,
            ) by {
                assert(shorter[i] == sorted[i]);
            }
            assert forall|i: int|
                insertion_point(sorted, start) <= i < sorted.len() implies start.earlier(
                (#[trigger] sorted[i]).start,
            ) by {
                if i < shorter.len() {
                    assert(shorter[i] == sorted[i]);
                }
            }
        } else {
            assert forall|i: int| 0 <= i < sorted.len() implies !start.earlier(
                (#[trigger] sorted[i]).start,
            ) by {
                let last = sorted.len() - 1;
                assert(!sorted[last].start.earlier(sorted[i].start));
                if start.earlier(sorted[i].start) {
                    lemma_earlier_chain(start, sorted[i].start, sorted[last].start);
                }
            }
        }
    }
}

/// A time that is earlier than one that is no later than a third is earlier
/// than the third.
pub proof fn lemma_earlier_chain(a: Timestamp, b: Timestamp, c: Timestamp)
    requires
        a.earlier(b),
        !c.earlier(b),
    ensures
        a.earlier(c),
{
}

/// Sorting keeps every activity, once, and brings them into the order of
/// their starts.
pub proof fn lemma_sorted_by_start(activities: Seq<ActivityView>)
    ensures
        sorted_by_start(activities).len() == activities.len(),
        is_ordered_by_start(sorted_by_start(activities)),
        sorted_by_start(activities).to_multiset() == activities.to_multiset(),
    decreases activities.len(),
{
    broadcast use vstd::seq_lib::group_to_multiset_ensures;

    if activities.len() == 0 {
        assert(activities =~= Seq::<ActivityView>::empty());
    } else {
        let shorter = activities.drop_last();
        let x = activities.last();
        lemma_sorted_by_start(shorter);
        let before = sorted_by_start(shorter);
        let p = insertion_point(before, x.start);
        lemma_insertion_point(before, x.start);
        let after = before.insert(p, x);
        assert forall|i: int, j: int| 0 <= i <= j < after.len() implies !(
        #[trigger] after[j]).start.earlier((#[trigger] after[i]).start) by {
            if j < p {
                assert(after[i] == before[i] && after[j] == before[j]);
            } else if j == p {
                if i < p {
                    assert(after[i] == before[i]);
                }
            } else {
                assert(after[j] == before[j - 1]);
                if i < p {
                    assert(after[i] == before[i]);
                } else if i == p {
                } else {
                    assert(after[i] == before[i - 1]);
                }
            }
        }
        assert(activities =~= shorter.push(x));
        vstd::seq_lib::to_multiset_insert(before, p, x);
        assert(after.to_multiset() =~= before.to_multiset().insert(x));
        assert(shorter.push(x).to_multiset() =~= shorter.to_multiset().insert(x));
    }
}

/// The activities in the order of their starts; those that start at the
/// same time stay in the order they came in.
pub fn sort_by_start<'a>(activities: &Vec<&'a Activity>) -> (r: Vec<&'a Activity>)
    ensures
        activity_views(r@) == sorted_by_start(activity_views(activities@)),
{
    let ghost whole = activity_views(activities@);
    let mut sorted: Vec<&'a Activity> = Vec::new();
    let mut i: usize = 0;
    assert(whole.take(0) =~= Seq::<ActivityView>::empty());
    assert(activity_views(sorted@) =~= Seq::<ActivityView>::empty());
    while i < activities.len()
        invariant
            i <= activities.len(),
            whole == activity_views(activities@),
            sorted.len() == i,
            activity_views(sorted@) == sorted_by_start(whole.take(i as int)),
        decreases activities.len() - i,
    {
        let activity = activities[i];
        let ghost before = activity_views(sorted@);
        proof {
            let next = whole.take(i + 1);
            assert(next.drop_last() =~= whole.take(i as int));
            assert(next.last() == activity@);
        }
        let mut at: usize = sorted.len();
        assert(before.take(at as int) =~= before);
        while at > 0 && activity.start.is_before(&sorted[at - 1].start)
            invariant
                at <= sorted.len(),
                before == activity_views(sorted@),
                insertion_point(before, activity@.start) == insertion_point(
                    before.take(at as int),
                    activity@.start,
                ),
            decreases at,
        {
            proof {
                let part = before.take(at as int);
                assert(part.last() == sorted@[at - 1]@);
                assert(part.drop_last() =~= before.take(at - 1));
            }
            at -= 1;
        }
        proof {
            let part = before.take(at as int);
            if at > 0 {
                assert(part.last() == sorted@[at - 1]@);
            }
            assert(insertion_point(part, activity@.start) == at);
        }
        sorted.insert(at, activity);
        assert(activity_views(sorted@) =~= before.insert(at as int, activity@));
        i += 1;
    }
    assert(whole.take(i as int) =~= whole);
    sorted
}

/// The description and the project of each activity.
pub open spec fn descriptions_and_projects(activities: Seq<ActivityView>) -> Seq<
    (Seq<char>, Seq<char>),
> {
    Seq::new(activities.len(), |i: int| (activities[i].description, activities[i].project))
}

/// A sequence without what occurs again further on: of equal items the last stays.
pub open spec fn distinct_keeping_last(s: Seq<(Seq<char>, Seq<char>)>) -> Seq<
    (Seq<char>, Seq<char>),
>
    decreases s.len(),
{
    if s.len() == 0 {
        Seq::empty()
    } else {
        let rest = distinct_keeping_last(s.drop_first());
        if s.drop_first().contains(s[0]) {
            rest
        } else {
            seq![s[0]] + rest
        }
    }
}

/// What is left holds each item of the sequence, and none twice.
pub proof fn lemma_distinct_keeping_last(s: Seq<(Seq<char>, Seq<char>)>)
    ensures
        distinct_keeping_last(s).no_duplicates(),
        forall|x: (Seq<char>, Seq<char>)|
            #[trigger] distinct_keeping_last(s).contains(x) <==> s.contains(x),
    decreases s.len(),
{
    let kept = distinct_keeping_last(s);
    if s.len() > 0 {
        let tail = s.drop_first();
        let rest = distinct_keeping_last(tail);
        lemma_distinct_keeping_last(tail);
        assert forall|x: (Seq<char>, Seq<char>)| #[trigger] kept.contains(x) <==> s.contains(x) by {
            if s.contains(x) {
                let i = choose|i: int| 0 <= i < s.len() && s[i] == x;
                if i > 0 {
                    assert(tail[i - 1] == x);
                    assert(tail.contains(x));
                }
                if tail.contains(x) {
                    assert(rest.contains(x));
                    let j = choose|j: int| 0 <= j < rest.len() && rest[j] == x;
                    if !tail.contains(s[0]) {
                        assert(kept[j + 1] == x);
                    }
                } else {
                    assert(kept[0] == x);
                }
            }
            if kept.contains(x) {
                let j = choose|j: int| 0 <= j < kept.len() && kept[j] == x;
                if tail.contains(s[0]) {
                    assert(rest.contains(x));
                } else if j > 0 {
                    assert(rest[j - 1] == x);
                    assert(rest.contains(x));
                }
                if rest.contains(x) {
                    assert(tail.contains(x));
                    let i = choose|i: int| 0 <= i < tail.len() && tail[i] == x;
                    assert(s[i + 1] == x);
                } else {
                    assert(s[0] == x);
                }
            }
        }
        if !tail.contains(s[0]) {
            assert forall|i: int, j: int| 0 <= i < kept.len() && 0 <= j < kept.len() && i
                != j implies kept[i] != kept[j] by {
                if i > 0 && j > 0 {
                    assert(rest[i - 1] == kept[i] && rest[j - 1] == kept[j]);
                } else if i == 0 {
                    assert(rest[j - 1] == kept[j]);
                    assert(rest.contains(kept[j]));
                } else {
                    assert(rest[i - 1] == kept[i]);
                    assert(rest.contains(kept[i]));
                }
            }
        }
    }
}

/// Pairs of strings behind references, as pairs of texts.
pub open spec fn pair_views(v: Seq<(&String, &String)>) -> Seq<(Seq<char>, Seq<char>)> {
    Seq::new(v.len(), |i: int| (v[i].0@, v[i].1@))
}

/// The distinct pairs of description and project of the activities, each at
/// the place of the activity with that pair that started last: what was
/// worked on most recently comes last.
///
/// The activities are left in the order of their starts, the latest first.
pub fn get_descriptions_and_projects_from_activities<'a>(
    activities: &mut Vec<&'a Activity>,
) -> (r: Vec<(&'a String, &'a String)>)
    ensures
        pair_views(r@) == distinct_keeping_last(
            descriptions_and_projects(sorted_by_start(activity_views(old(activities)@))),
        ),
        activity_views(final(activities)@) == sorted_by_start(
            activity_views(old(activities)@),
        ).reverse(),
{
    let sorted = sort_by_start(activities);
    let ghost all = descriptions_and_projects(activity_views(sorted@));
    let mut found: Vec<(&'a String, &'a String)> = Vec::new();
    let mut latest_first: Vec<&'a Activity> = Vec::new();
    let mut i: usize = sorted.len();
    assert(all.skip(i as int) =~= Seq::<(Seq<char>, Seq<char>)>::empty());
    assert(pair_views(found@) =~= Seq::<(Seq<char>, Seq<char>)>::empty());
    while i > 0
        invariant
            i <= sorted.len(),
            all == descriptions_and_projects(activity_views(sorted@)),
            pair_views(found@) == distinct_keeping_last(all.skip(i as int)),
            latest_first.len() == sorted.len() - i,
            forall|k: int|
                0 <= k < latest_first.len() ==> #[trigger] latest_first@[k] == sorted@[sorted.len()
                    - 1 - k],
        decreases i,
    {
        i -= 1;
        let activity = sorted[i];
        latest_first.push(activity);
        let ghost here = all.skip(i as int);
        let ghost before = pair_views(found@);
        assert(here.drop_first() =~= all.skip(i + 1));
        assert(here[0] == (activity@.description, activity@.project));
        // look for the same description and project among the activities that started later
        let mut again = false;
        let mut k: usize = i + 1;
        while k < sorted.len()
            invariant
                i < k <= sorted.len(),
                all == descriptions_and_projects(activity_views(sorted@)),
                here == all.skip(i as int),
                activity == sorted@[i as int],
                again == exists|j: int| i < j < k && all[j] == here[0],
            decreases sorted.len() - k,
        {
            if sorted[k].description == activity.description && sorted[k].project
                == activity.project {
                assert(all[k as int] == here[0]);
                again = true;
            }
            k += 1;
        }
        proof {
            let rest = here.drop_first();
            if again {
                let j = choose|j: int| i < j < sorted.len() && all[j] == here[0];
                assert(rest[j - i - 1] == all[j]);
                assert(rest.contains(here[0]));
            } else {
                if rest.contains(here[0]) {
                    let m = choose|m: int| 0 <= m < rest.len() && rest[m] == here[0];
                    assert(all[m + i + 1] == rest[m]);
                    assert(false);
                }
            }
        }
        if !again {
            found.insert(0, (&activity.description, &activity.project));
            assert(pair_views(found@) =~= seq![here[0]] + before);
        }
    }
    assert(all.skip(0) =~= all);
    assert(activity_views(latest_first@) =~= activity_views(sorted@).reverse());
    *activities = latest_first;
    found
}

/// The distinct pairs of description and project of the activities of a
/// file, what was worked on most recently last.
#[must_use]
pub fn get_descriptions_and_projects<'a>(file_content: &'a [Line]) -> (r: Vec<
    (&'a String, &'a String),
>)
    ensures
        pair_views(r@) == distinct_keeping_last(
            descriptions_and_projects(sorted_by_start(activities(views(file_content@)))),
        ),
{
    let mut all = get_activities(file_content);
    get_descriptions_and_projects_from_activities(&mut all)
}

/// Whether a pattern matches the whole of a text: `?` stands for any one
/// character, `*` for any number of characters, every other character for
/// itself.
pub open spec fn wildcard_matches(pattern: Seq<char>, text: Seq<char>) -> bool
    decreases pattern.len() + text.len(),
{
    if pattern.len() == 0 {
        text.len() == 0
    } else if pattern[0] == '*' {
        wildcard_matches(pattern.drop_first(), text) || (text.len() > 0 && wildcard_matches(
            pattern,
            text.drop_first(),
        ))
    } else {
        text.len() > 0 && (pattern[0] == '?' || pattern[0] == text[0]) && wildcard_matches(
            pattern.drop_first(),
            text.drop_first(),
        )
    }
}

/// `WildMatch::new` and `WildMatch::matches` of `wildmatch`: whether the
/// pattern matches the whole of the text, with `?` for one character and `*`
/// for any number of them, as the crate documents it.
#[verifier::external_body]
pub(crate) fn wild_match(pattern: &str, text: &str) -> (r: bool)
    ensures
        r == wildcard_matches(pattern@, text@),
{
    wildmatch::WildMatch::new(pattern).matches(text)
}

/// The first day that a filter lets pass, if it sets one.
pub open spec fn first_day(filter: ActivityFilter) -> Option<Date> {
    match filter.date {
        Some(date) => Some(date),
        None => filter.from_date,
    }
}

/// The last day that a filter lets pass, if it sets one.
pub open spec fn last_day(filter: ActivityFilter) -> Option<Date> {
    match filter.date {
        Some(date) => Some(date),
        None => filter.to_date,
    }
}

/// Whether a filter lets an activity pass: by the day of its start, and by
/// its project.
pub open spec fn passes(activity: ActivityView, filter: ActivityFilter) -> bool {
    &&& first_day(filter) is Some ==> first_day(filter).unwrap().days() <= activity.start.day()
    &&& last_day(filter) is Some ==> activity.start.day() <= last_day(filter).unwrap().days()
    &&& filter.project is Some ==> wildcard_matches(filter.project.unwrap()@, activity.project)
}

/// The activities that a filter lets pass, in order.
pub open spec fn shown(activities: Seq<ActivityView>, filter: ActivityFilter) -> Seq<ActivityView>
    decreases activities.len(),
{
    if activities.len() == 0 {
        Seq::empty()
    } else {
        let before = shown(activities.drop_last(), filter);
        if passes(activities.last(), filter) {
            before.push(activities.last())
        } else {
            before
        }
    }
}

/// The activities that started within the days of the filter and whose
/// project its pattern matches, in the order they came in.
pub fn filter_activities<'a>(activities: Vec<&'a Activity>, filter: &'a ActivityFilter) -> (r: Vec<
    &'a Activity,
>)
    ensures
        activity_views(r@) == shown(activity_views(activities@), *filter),
{
    let from_date = match filter.date {
        Some(date) => Some(date),
        None => filter.from_date,
    };
    let to_date = match filter.date {
        Some(date) => Some(date),
        None => filter.to_date,
    };
    let ghost whole = activity_views(activities@);
    let mut found: Vec<&'a Activity> = Vec::new();
    let mut i: usize = 0;
    assert(whole.take(0) =~= Seq::<ActivityView>::empty());
    assert(activity_views(found@) =~= Seq::<ActivityView>::empty());
    while i < activities.len()
        invariant
            i <= activities.len(),
            whole == activity_views(activities@),
            from_date == first_day(*filter),
            to_date == last_day(*filter),
            activity_views(found@) == shown(whole.take(i as int), *filter),
        decreases activities.len() - i,
    {
        let activity = activities[i];
        let ghost before = activity_views(found@);
        proof {
            let next = whole.take(i + 1);
            assert(next.drop_last() =~= whole.take(i as int));
            assert(next.last() == activity@);
        }
        let day = activity.start.date();
        let late_enough = match from_date {
            Some(date) => date.number() <= day.number(),
            None => true,
        };
        let early_enough = match to_date {
            Some(date) => day.number() <= date.number(),
            None => true,
        };
        let of_project = match filter.project {
            Some(pattern) => wild_match(pattern, activity.project.as_str()),
            None => true,
        };
        if late_enough && early_enough && of_project {
            found.push(activity);
            assert(activity_views(found@) =~= before.push(activity@));
        }
        i += 1;
    }
    assert(whole.take(i as int) =~= whole);
    found
}

} // verus!
