//! The command that reports the time spent on each project.
use vstd::prelude::*;
use crate::controller::list::{all_processed, listed, select_activities};
use crate::data::bartib_file::{views, Line};
use crate::data::getter::{activity_views, get_activities, ActivityFilter};
use crate::data::processor::{process_activities, ActivityProcessor};
use crate::data::timestamp::{Precision, Timestamp};
use crate::view::report::{is_report_of, show_activities};

verus! {

/// The report of a file at the time `now`, as text for the terminal that
/// the output goes to, or for a terminal without bounds where it goes
/// elsewhere: of the activities of its lines, as the processors leave them,
/// that the filter selects. There is no text where the terminal is too
/// narrow for the widest time of the report and a blank.
pub fn show_report(
    file_content: &[Line],
    filter: ActivityFilter,
    processors: Vec<Box<dyn ActivityProcessor>>,
    now: Timestamp,
    precision: Precision,
) -> (r: Option<String>)
    ensures
        is_report_of(r, listed(views(file_content@), filter, processors@), now, precision),
{
    let activities = get_activities(file_content);
    let ghost found = activity_views(activities@);
    let processed_activities = process_activities(activities, processors);
    assert(Seq::new(processed_activities@.len(), |i: int| processed_activities@[i]@)
        =~= all_processed(processors@, found));
    let filtered_activities = select_activities(&processed_activities, &filter);
    show_activities(filtered_activities.as_slice(), now, precision)
}

} // verus!
