//! The command that shows the status.
use vstd::prelude::*;
use crate::controller::list::all_processed;
use crate::data::activity::{Activity, ActivityView};
use crate::data::bartib_file::{views, Line};
use crate::data::filter::{started_this_month, started_this_week, Filters};
use crate::data::getter::{activities, activity_views, get_activities, ActivityFilter};
use crate::data::processor::{process_activities, ActivityProcessor};
use crate::data::timestamp::{Date, Duration, Precision, Timestamp};
use crate::view::report::{sum_duration, total_duration};
use crate::view::status::{status_text, StatusReport, StatusReportData};

verus! {

/// The first of some activities that is running, if one is.
pub open spec fn first_running(activities: Seq<ActivityView>) -> Option<ActivityView>
    decreases activities.len(),
{
    if activities.len() == 0 {
        None
    } else if activities[0].end is None {
        Some(activities[0])
    } else {
        first_running(activities.drop_first())
    }
}

/// Which of the periods of the status an activity is counted in.
#[derive(Debug, Clone, Copy, PartialEq, Eq, Structural)]
pub enum Period {
    Today,
    CurrentWeek,
    CurrentMonth,
}

/// Whether an activity started in a period that ends with the day `today`.
pub open spec fn started_in(activity: ActivityView, period: Period, today: Date) -> bool {
    match period {
        Period::Today => activity.start.day() == today.days(),
        Period::CurrentWeek => started_this_week(activity, today),
        Period::CurrentMonth => started_this_month(activity, today),
    }
}

/// Of some activities those that started in a period, in order.
pub open spec fn of_period(activities: Seq<ActivityView>, period: Period, today: Date) -> Seq<
    ActivityView,
>
    decreases activities.len(),
{
    if activities.len() == 0 {
        Seq::empty()
    } else {
        let before = of_period(activities.drop_last(), period, today);
        if started_in(activities.last(), period, today) {
            before.push(activities.last())
        } else {
            before
        }
    }
}

/// How long the activities that started in a period have lasted at the
/// time `now`, all in all.
pub fn period_duration(activities: &Vec<&Activity>, period: Period, now: Timestamp) -> (r: Duration)
    ensures
        r == total_duration(of_period(activity_views(activities@), period, now.date_spec()), now),
{
    let today = now.date();
    let ghost whole = activity_views(activities@);
    let mut counted: Vec<&Activity> = Vec::new();
    let mut i: usize = 0;
    assert(whole.take(0) =~= Seq::<ActivityView>::empty());
    assert(activity_views(counted@) =~= Seq::<ActivityView>::empty());
    while i < activities.len()
        invariant
            i <= activities.len(),
            whole == activity_views(activities@),
            today == now.date_spec(),
            activity_views(counted@) == of_period(whole.take(i as int), period, today),
        decreases activities.len() - i,
    {
        let activity = activities[i];
        let ghost before = activity_views(counted@);
        proof {
            assert(whole.take(i + 1).drop_last() =~= whole.take(i as int));
            assert(whole.take(i + 1).last() == activity@);
        }
        let in_period = match period {
            Period::Today => Filters::today(today, activity),
            Period::CurrentWeek => Filters::current_week(today, activity),
            Period::CurrentMonth => Filters::current_month(today, activity),
        };
        if in_period {
            counted.push(activity);
            assert(activity_views(counted@) =~= before.push(activity@));
        }
        i += 1;
    }
    assert(whole.take(i as int) =~= whole);
    sum_duration(counted.as_slice(), now)
}

/// What the status of some activities shows at the time `now`: the first
/// of them that is running, and the time of those that started today, this
/// week and this month.
pub open spec fn is_status_of(
    data: StatusReportData,
    activities: Seq<ActivityView>,
    project: Option<&str>,
    now: Timestamp,
) -> bool {
    &&& match data.activity {
        Some(activity) => first_running(activities) == Some(activity@),
        None => first_running(activities) is None,
    }
    &&& data.project == project
    &&& data.today == total_duration(of_period(activities, Period::Today, now.date_spec()), now)
    &&& data.current_week == total_duration(
        of_period(activities, Period::CurrentWeek, now.date_spec()),
        now,
    )
    &&& data.current_month == total_duration(
        of_period(activities, Period::CurrentMonth, now.date_spec()),
        now,
    )
}

/// The status of some activities at the time `now`.
pub fn status_of<'a>(activities: &Vec<&'a Activity>, project: Option<&'a str>, now: Timestamp) -> (r:
    StatusReportData<'a>)
    ensures
        is_status_of(r, activity_views(activities@), project, now),
{
    let ghost whole = activity_views(activities@);
    let mut current: Option<&'a Activity> = None;
    let mut i: usize = 0;
    assert(whole.skip(0) =~= whole);
    while i < activities.len() && current.is_none()
        invariant
            i <= activities.len(),
            whole == activity_views(activities@),
            match current {
                Some(activity) => first_running(whole) == Some(activity@),
                None => first_running(whole) == first_running(whole.skip(i as int)),
            },
        decreases activities.len() - i,
    {
        proof {
            assert(whole.skip(i as int).drop_first() =~= whole.skip(i + 1));
            assert(whole.skip(i as int)[0] == activities@[i as int]@);
        }
        if !activities[i].is_stopped() {
            current = Some(activities[i]);
        }
        i += 1;
    }
    StatusReportData {
        activity: current,
        project,
        today: period_duration(activities, Period::Today, now),
        current_week: period_duration(activities, Period::CurrentWeek, now),
        current_month: period_duration(activities, Period::CurrentMonth, now),
    }
}

/// The status of a file at the time `now`, as text: of the activities of
/// its lines, as the processors leave them, that the filter lets pass.
pub fn show_status(
    file_content: &[Line],
    filter: ActivityFilter,
    processors: Vec<Box<dyn ActivityProcessor>>,
    now: Timestamp,
    precision: Precision,
) -> (r: String)
    ensures
        exists|data: StatusReportData|
            is_status_of(
                data,
                crate::data::getter::sorted_by_start(
                    crate::data::getter::shown(
                        all_processed(processors@, activities(views(file_content@))),
                        filter,
                    ),
                ),
                filter.project,
                now,
            ) && r@ == status_text(data, now, precision) + seq!['\n'],
{
    let found = get_activities(file_content);
    let ghost all = activity_views(found@);
    let processed_activities = process_activities(found, processors);
    assert(Seq::new(processed_activities@.len(), |i: int| processed_activities@[i]@)
        =~= all_processed(processors@, all));
    let mut refs: Vec<&Activity> = Vec::new();
    let mut i: usize = 0;
    while i < processed_activities.len()
        invariant
            i <= processed_activities.len(),
            refs@.len() == i,
            forall|k: int| 0 <= k < i ==> *(#[trigger] refs@[k]) == processed_activities@[k],
        decreases processed_activities.len() - i,
    {
        refs.push(&processed_activities[i]);
        i += 1;
    }
    assert(activity_views(refs@) =~= all_processed(processors@, all));
    let filtered_activities = crate::data::getter::filter_activities(refs, &filter);
    let sorted = crate::data::getter::sort_by_start(&filtered_activities);
    let data = status_of(&sorted, filter.project, now);
    let writer = StatusReport {  };
    writer.process(&data, now, precision)
}

} // verus!
