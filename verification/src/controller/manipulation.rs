//! The commands that change the log: what becomes of the lines of the file.
//!
//! Each command works on the lines that were read from the file; writing
//! them back, and telling the user what was done, is left to the caller.
use vstd::prelude::*;
use vstd::string::StringExecFns;
use crate::data::activity::{Activity, ActivityView};
use crate::data::bartib_file::{is_writable, views, Line, LineStatus, LineView};
use crate::data::getter::{
    activities, descriptions_and_projects, distinct_keeping_last, get_descriptions_and_projects,
    sorted_by_start,
};
use crate::data::timestamp::Timestamp;

verus! {

/// Whether a line holds an activity that has not been stopped.
pub open spec fn holds_running(line: LineView) -> bool {
    line.activity is Ok && line.activity.unwrap().end is None
}

/// Whether `after` is what stopping leaves of the line `before`: a line
/// with a running activity gets an end, the given one if one is given, and
/// is marked as changed; any other line stays as it is.
pub open spec fn is_stopped_line(before: LineView, after: LineView, time: Option<Timestamp>) -> bool {
    if holds_running(before) {
        &&& after.plaintext == before.plaintext
        &&& after.line_number == before.line_number
        &&& after.status == LineStatus::Changed
        &&& after.activity is Ok
        &&& after.activity.unwrap().start == before.activity.unwrap().start
        &&& after.activity.unwrap().project == before.activity.unwrap().project
        &&& after.activity.unwrap().description == before.activity.unwrap().description
        &&& after.activity.unwrap().end is Some
        &&& time is Some ==> after.activity.unwrap().end == time
    } else {
        after == before
    }
}

/// Stopping marks no line as changed that holds no activity, and makes no
/// changed line unchanged again: a line that could be written can still be
/// written, a line without an activity stays as it is, and a changed line
/// stays changed.
pub proof fn lemma_stopping_keeps_lines_sound(
    before: LineView,
    after: LineView,
    time: Option<Timestamp>,
)
    requires
        is_stopped_line(before, after, time),
    ensures
        is_writable(before) ==> is_writable(after),
        before.activity is Err ==> after == before,
        before.status == LineStatus::Changed ==> after.status == LineStatus::Changed,
{
}

/// The places of the lines that hold a running activity, in order.
pub open spec fn running_places(lines: Seq<LineView>) -> Seq<usize>
    decreases lines.len(),
{
    if lines.len() == 0 {
        Seq::empty()
    } else {
        let before = running_places(lines.drop_last());
        if holds_running(lines.last()) {
            before.push((lines.len() - 1) as usize)
        } else {
            before
        }
    }
}

/// Stops every running activity, at `time` or now, and marks its line as
/// changed. Gives the places of the lines that were stopped.
pub fn stop_all_running_activities(file_content: &mut Vec<Line>, time: Option<Timestamp>) -> (r:
    Vec<usize>)
    ensures
        final(file_content).len() == old(file_content).len(),
        forall|i: int|
            0 <= i < old(file_content).len() ==> is_stopped_line(
                (#[trigger] old(file_content)@[i])@,
                final(file_content)@[i]@,
                time,
            ),
        r@ == running_places(views(old(file_content)@)),
{
    let mut stopped: Vec<usize> = Vec::new();
    let mut i: usize = 0;
    let ghost before = views(file_content@);
    assert(before.take(0) =~= Seq::<LineView>::empty());
    while i < file_content.len()
        invariant
            i <= file_content.len(),
            file_content.len() == old(file_content).len(),
            before == views(old(file_content)@),
            forall|k: int|
                0 <= k < i ==> is_stopped_line(
                    (#[trigger] old(file_content)@[k])@,
                    file_content@[k]@,
                    time,
                ),
            forall|k: int| i <= k < file_content.len() ==> #[trigger] file_content@[k] == old(
                file_content,
            )@[k],
            stopped@ == running_places(before.take(i as int)),
        decreases file_content.len() - i,
    {
        proof {
            let next = before.take(i + 1);
            assert(next.drop_last() =~= before.take(i as int));
            assert(next.last() == old(file_content)@[i as int]@);
        }
        let line = &mut file_content[i];
        let mut was_running = false;
        match &mut line.activity {
            Ok(activity) => {
                if !activity.is_stopped() {
                    activity.stop(time);
                    was_running = true;
                }
            },
            Err(_) => {},
        }
        if was_running {
            line.set_changed();
            stopped.push(i);
        }
        i += 1;
    }
    assert(before.take(i as int) =~= before);
    stopped
}

/// Stops every running activity, at `time` or now. Gives the places of the
/// lines that were stopped.
pub fn stop(file_content: &mut Vec<Line>, time: Option<Timestamp>) -> (r: Vec<usize>)
    ensures
        final(file_content).len() == old(file_content).len(),
        forall|i: int|
            0 <= i < old(file_content).len() ==> is_stopped_line(
                (#[trigger] old(file_content)@[i])@,
                final(file_content)@[i]@,
                time,
            ),
        r@ == running_places(views(old(file_content)@)),
{
    stop_all_running_activities(file_content, time)
}

/// Whether `last` is the line of a new running activity with the given
/// project and description, started at `time` if one is given.
pub open spec fn is_started_line(
    last: LineView,
    project: Seq<char>,
    description: Seq<char>,
    time: Option<Timestamp>,
) -> bool {
    &&& last.plaintext is None
    &&& last.line_number is None
    &&& last.status == LineStatus::Changed
    &&& last.activity is Ok
    &&& last.activity.unwrap().project == project
    &&& last.activity.unwrap().description == description
    &&& last.activity.unwrap().end is None
    &&& time is Some ==> last.activity.unwrap().start == time.unwrap()
}

/// Starts a new activity, at `time` or now: every running activity is
/// stopped first, then the line of the new activity is put behind the
/// others. Gives the places of the lines that were stopped.
pub fn start(
    file_content: &mut Vec<Line>,
    project_name: &str,
    activity_description: &str,
    time: Option<Timestamp>,
) -> (r: Vec<usize>)
    ensures
        final(file_content).len() == old(file_content).len() + 1,
        forall|i: int|
            0 <= i < old(file_content).len() ==> is_stopped_line(
                (#[trigger] old(file_content)@[i])@,
                final(file_content)@[i]@,
                time,
            ),
        is_started_line(
            final(file_content)@.last()@,
            project_name@,
            activity_description@,
            time,
        ),
        r@ == running_places(views(old(file_content)@)),
{
    // if we start a new activity, we stop all other activities first: the user may have
    // started more than one by hand
    let stopped = stop_all_running_activities(file_content, time);
    let activity = Activity::start(
        String::from_str(project_name),
        String::from_str(activity_description),
        time,
    );
    file_content.push(Line::for_activity(activity));
    stopped
}

/// What a change makes of a text: the new text, if one is given.
pub open spec fn changed_text(before: Seq<char>, to: Option<&str>) -> Seq<char> {
    match to {
        Some(text) => text@,
        None => before,
    }
}

/// Whether `after` is what a change leaves of the line `before`: a line
/// with a running activity takes what is given of project, description and
/// start, and is marked as changed if anything is given; any other line
/// stays as it is.
pub open spec fn is_changed_line(
    before: LineView,
    after: LineView,
    project_name: Option<&str>,
    activity_description: Option<&str>,
    time: Option<Timestamp>,
) -> bool {
    if holds_running(before) && (project_name is Some || activity_description is Some || time
        is Some) {
        &&& after.plaintext == before.plaintext
        &&& after.line_number == before.line_number
        &&& after.status == LineStatus::Changed
        &&& after.activity == Ok::<ActivityView, crate::data::activity::ActivityError>(
            ActivityView {
                start: match time {
                    Some(t) => t,
                    None => before.activity.unwrap().start,
                },
                end: None,
                project: changed_text(before.activity.unwrap().project, project_name),
                description: changed_text(
                    before.activity.unwrap().description,
                    activity_description,
                ),
            },
        )
    } else {
        after == before
    }
}

/// A change marks no line as changed that holds no activity, and makes
/// no changed line unchanged again.
pub proof fn lemma_changing_keeps_lines_sound(
    before: LineView,
    after: LineView,
    project_name: Option<&str>,
    activity_description: Option<&str>,
    time: Option<Timestamp>,
)
    requires
        is_changed_line(before, after, project_name, activity_description, time),
    ensures
        is_writable(before) ==> is_writable(after),
        before.activity is Err ==> after == before,
        before.status == LineStatus::Changed ==> after.status == LineStatus::Changed,
{
}

/// Gives every running activity the project, the description and the start
/// that are given, and marks its line as changed. Gives the places of the
/// lines that were changed.
pub fn change(
    file_content: &mut Vec<Line>,
    project_name: Option<&str>,
    activity_description: Option<&str>,
    time: Option<Timestamp>,
) -> (r: Vec<usize>)
    ensures
        final(file_content).len() == old(file_content).len(),
        forall|i: int|
            0 <= i < old(file_content).len() ==> is_changed_line(
                (#[trigger] old(file_content)@[i])@,
                final(file_content)@[i]@,
                project_name,
                activity_description,
                time,
            ),
        project_name is Some || activity_description is Some || time is Some ==> r@
            == running_places(views(old(file_content)@)),
        project_name is None && activity_description is None && time is None ==> r@.len() == 0,
{
    let mut changed_lines: Vec<usize> = Vec::new();
    let mut i: usize = 0;
    let ghost before = views(file_content@);
    let ghost any = project_name is Some || activity_description is Some || time is Some;
    assert(before.take(0) =~= Seq::<LineView>::empty());
    while i < file_content.len()
        invariant
            i <= file_content.len(),
            file_content.len() == old(file_content).len(),
            before == views(old(file_content)@),
            any == (project_name is Some || activity_description is Some || time is Some),
            forall|k: int|
                0 <= k < i ==> is_changed_line(
                    (#[trigger] old(file_content)@[k])@,
                    file_content@[k]@,
                    project_name,
                    activity_description,
                    time,
                ),
            forall|k: int| i <= k < file_content.len() ==> #[trigger] file_content@[k] == old(
                file_content,
            )@[k],
            any ==> changed_lines@ == running_places(before.take(i as int)),
            !any ==> changed_lines@.len() == 0,
        decreases file_content.len() - i,
    {
        proof {
            let next = before.take(i + 1);
            assert(next.drop_last() =~= before.take(i as int));
            assert(next.last() == old(file_content)@[i as int]@);
        }
        let line = &mut file_content[i];
        let mut changed = false;
        match &mut line.activity {
            Ok(activity) => {
                if !activity.is_stopped() {
                    if let Some(project_name) = project_name {
                        activity.project = String::from_str(project_name);
                        changed = true;
                    }
                    if let Some(activity_description) = activity_description {
                        activity.description = String::from_str(activity_description);
                        changed = true;
                    }
                    if let Some(time) = time {
                        activity.start = time;
                        changed = true;
                    }
                }
            },
            Err(_) => {},
        }
        if changed {
            line.set_changed();
            changed_lines.push(i);
        }
        i += 1;
    }
    assert(before.take(i as int) =~= before);
    changed_lines
}

/// The lines that hold no running activity, in order.
pub open spec fn without_running(lines: Seq<LineView>) -> Seq<LineView>
    decreases lines.len(),
{
    if lines.len() == 0 {
        Seq::empty()
    } else {
        let before = without_running(lines.drop_last());
        if holds_running(lines.last()) {
            before
        } else {
            before.push(lines.last())
        }
    }
}

/// The lines that hold a running activity, in order.
pub open spec fn only_running(lines: Seq<LineView>) -> Seq<LineView>
    decreases lines.len(),
{
    if lines.len() == 0 {
        Seq::empty()
    } else {
        let before = only_running(lines.drop_last());
        if holds_running(lines.last()) {
            before.push(lines.last())
        } else {
            before
        }
    }
}

/// Cancels every running activity: its line leaves the file. Gives the
/// lines that stay, as they are, and the lines that were taken out.
pub fn cancel(file_content: Vec<Line>) -> (r: (Vec<Line>, Vec<Line>))
    ensures
        views(r.0@) == without_running(views(file_content@)),
        views(r.1@) == only_running(views(file_content@)),
{
    let ghost before = views(file_content@);
    let mut kept: Vec<Line> = Vec::new();
    let mut canceled: Vec<Line> = Vec::new();
    assert(before.take(0) =~= Seq::<LineView>::empty());
    assert(views(kept@) =~= Seq::<LineView>::empty());
    assert(views(canceled@) =~= Seq::<LineView>::empty());
    for line in it: file_content
        invariant
            before == views(file_content@),
            views(kept@) == without_running(before.take(it.index@)),
            views(canceled@) == only_running(before.take(it.index@)),
    {
        let ghost kept_before = views(kept@);
        let ghost canceled_before = views(canceled@);
        proof {
            let next = before.take(it.index@ + 1);
            assert(next.drop_last() =~= before.take(it.index@));
            assert(next.last() == line@);
        }
        let running = match &line.activity {
            Ok(activity) => !activity.is_stopped(),
            Err(_) => false,
        };
        if running {
            canceled.push(line);
            assert(views(canceled@) =~= canceled_before.push(line@));
        } else {
            kept.push(line);
            assert(views(kept@) =~= kept_before.push(line@));
        }
    }
    assert(before.take(before.len() as int) =~= before);
    (kept, canceled)
}

/// Why no activity was continued.
#[derive(Debug, Clone, Copy, PartialEq, Eq, Structural)]
pub enum ContinueError {
    /// The log holds no activity.
    NothingStarted,
    /// The log holds fewer distinct activities than the number that was asked for.
    TooFewActivities(usize),
}

/// Which of `count` distinct activities, the most recent last, is the one
/// that is `number` places back from the most recent.
pub open spec fn place_to_continue(count: int, number: int) -> int {
    let back = if count >= number {
        count - number
    } else {
        0
    };
    if back >= 1 {
        back - 1
    } else {
        0
    }
}

/// The description and project that `continue_last_activity` takes up
/// again, or why it takes up none.
pub open spec fn to_continue(lines: Seq<LineView>, number: usize) -> Result<
    (Seq<char>, Seq<char>),
    ContinueError,
> {
    let known = distinct_keeping_last(
        descriptions_and_projects(sorted_by_start(activities(lines))),
    );
    if known.len() == 0 {
        Err(ContinueError::NothingStarted)
    } else if number > known.len() {
        Err(ContinueError::TooFewActivities(number))
    } else {
        Ok(known[place_to_continue(known.len() as int, number as int)])
    }
}

/// Starts an activity again that the log holds: the one that is `number`
/// places back among the distinct activities, the most recent counted as
/// zero. A project or a description that is given replaces that of the
/// activity. Every running activity is stopped first, as by `start`.
///
/// Where the log holds no activity, or fewer distinct ones than `number`,
/// nothing is changed.
pub fn continue_last_activity(
    file_content: &mut Vec<Line>,
    project_name: Option<&str>,
    activity_description: Option<&str>,
    time: Option<Timestamp>,
    number: usize,
) -> (r: Result<Vec<usize>, ContinueError>)
    ensures
        match to_continue(views(old(file_content)@), number) {
            Err(e) => r == Err::<Vec<usize>, ContinueError>(e) && *final(file_content) == *old(
                file_content,
            ),
            Ok((description, project)) => {
                &&& r is Ok
                &&& r.unwrap()@ == running_places(views(old(file_content)@))
                &&& final(file_content).len() == old(file_content).len() + 1
                &&& forall|i: int|
                    0 <= i < old(file_content).len() ==> is_stopped_line(
                        (#[trigger] old(file_content)@[i])@,
                        final(file_content)@[i]@,
                        time,
                    )
                &&& is_started_line(
                    final(file_content)@.last()@,
                    changed_text(project, project_name),
                    changed_text(description, activity_description),
                    time,
                )
            },
        },
{
    let descriptions_and_projects = get_descriptions_and_projects(file_content.as_slice());

    if descriptions_and_projects.len() == 0 {
        return Err(ContinueError::NothingStarted);
    }
    if number > descriptions_and_projects.len() {
        return Err(ContinueError::TooFewActivities(number));
    }
    let i = (descriptions_and_projects.len() - number).saturating_sub(1);
    let (description, project) = descriptions_and_projects[i];
    let new_project = match project_name {
        Some(name) => String::from_str(name),
        None => project.clone(),
    };
    let new_description = match activity_description {
        Some(text) => String::from_str(text),
        None => description.clone(),
    };
    let new_activity = Activity::start(new_project, new_description, time);
    let stopped = stop_all_running_activities(file_content, time);
    file_content.push(Line::for_activity(new_activity));
    Ok(stopped)
}

} // verus!
