//! The questions that the status asks of an activity.
use vstd::prelude::*;
use crate::data::activity::{Activity, ActivityView};
use crate::data::timestamp::{month_start_day, Date};

verus! {

/// The questions by which the status picks its activities.
pub struct Filters {}

/// Whether an activity started in the week of `today`, from its Monday up
/// to `today` itself.
pub open spec fn started_this_week(activity: ActivityView, today: Date) -> bool {
    today.days() - (today.days() + 3) % 7 <= activity.start.day() <= today.days()
}

/// Whether an activity started in the month of `today`, from its first day
/// up to `today` itself.
pub open spec fn started_this_month(activity: ActivityView, today: Date) -> bool {
    month_start_day(today.days()) <= activity.start.day() <= today.days()
}

impl Filters {
    /// Whether the activity is running.
    pub fn active(activity: &Activity) -> (r: bool)
        ensures
            r == activity.end is None,
    {
        !activity.is_stopped()
    }

    /// Whether the activity started on the given day.
    pub fn today(today: Date, activity: &Activity) -> (r: bool)
        ensures
            r == (activity.start.day() == today.days()),
    {
        activity.start.date().number() == today.number()
    }

    /// Whether the activity started in the week of `today` and no later than `today`.
    pub fn current_week(today: Date, activity: &Activity) -> (r: bool)
        ensures
            r == started_this_week(activity@, today),
    {
        let from_date = today.number() - today.days_from_monday();
        let day = activity.start.date().number();
        from_date <= day && day <= today.number()
    }

    /// Whether the activity started in the month of `today` and no later than `today`.
    pub fn current_month(today: Date, activity: &Activity) -> (r: bool)
        ensures
            r == started_this_month(activity@, today),
    {
        proof {
            use_type_invariant(&today);
        }
        let from_date = today.month_start();
        let day = activity.start.date().number();
        from_date.number() <= day && day <= today.number()
    }
}

} // verus!
