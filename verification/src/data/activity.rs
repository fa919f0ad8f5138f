//! Activities, and the line of the log that holds one.
//!
//! A line reads `<start> [- <end>] | <project> | <description>`. The project
//! and the description are escaped, so that they can hold a pipe.
use vstd::prelude::*;
use vstd::string::StringExecFns;
use crate::data::escaping::{
    escape_special_chars, escaped, escaped_by_char, is_plain, lemma_escaped_by_char,
    lemma_escaped_concat, lemma_escaped_plain, lemma_split_three, split_segments,
    split_with_escaped_delimiter, texts, DELIMITER, ESCAPE,
};
use crate::data::text::{
    chars_of, find, find_from, is_trimmed, is_white_space, lemma_find_first, lemma_find_none,
    lemma_trimmed_padded, text_of, trim, trimmed,
};
use crate::data::timestamp::{
    current_time, datetime_text, datetime_value, format_datetime, is_stamp_char, is_stamp_text,
    parse_datetime, Duration, Precision, Timestamp,
};

verus! {

/// One tracked interval of work.
#[derive(Debug)]
pub struct Activity {
    pub start: Timestamp,
    /// `None` while the activity is running.
    pub end: Option<Timestamp>,
    pub project: String,
    pub description: String,
}

/// An activity with its texts as sequences of characters.
pub struct ActivityView {
    pub start: Timestamp,
    pub end: Option<Timestamp>,
    pub project: Seq<char>,
    pub description: Seq<char>,
}

impl View for Activity {
    type V = ActivityView;

    open spec fn view(&self) -> ActivityView {
        ActivityView {
            start: self.start,
            end: self.end,
            project: self.project@,
            description: self.description@,
        }
    }
}

impl Clone for Activity {
    fn clone(&self) -> (r: Activity)
        ensures
            r == *self,
    {
        Activity {
            start: self.start,
            end: self.end,
            project: self.project.clone(),
            description: self.description.clone(),
        }
    }
}

/// Why a line holds no activity.
#[derive(Debug, Clone, Copy, PartialEq, Eq, Structural)]
pub enum ActivityError {
    /// A time of the line is no date and time at either precision.
    DateTimeParseError,
    /// The line has no pipe that separates a time from a project.
    GeneralParseError,
}

impl ActivityError {
    /// What to tell the user about the error.
    pub fn to_string(&self) -> (r: String)
        ensures
            r@ == match *self {
                ActivityError::DateTimeParseError => "could not parse date or time of activity"@,
                ActivityError::GeneralParseError => "could not parse activity"@,
            },
    {
        match self {
            ActivityError::DateTimeParseError => String::from_str(
                "could not parse date or time of activity",
            ),
            ActivityError::GeneralParseError => String::from_str("could not parse activity"),
        }
    }
}

/// What stands between the start and the end of a stopped activity.
pub open spec fn time_separator() -> Seq<char> {
    seq![' ', '-', ' ']
}

/// What stands between the fields of a line.
pub open spec fn field_separator() -> Seq<char> {
    seq![' ', '|', ' ']
}

/// A timestamp as a file of the given precision holds it.
pub open spec fn stamp_text(t: Timestamp, precision: Precision) -> Seq<char> {
    datetime_text(t.secs(), t.nanos(), precision.pattern())
}

/// The line of an activity, with the line feed that ends it.
pub open spec fn line_text(a: ActivityView, precision: Precision) -> Seq<char> {
    stamp_text(a.start, precision) + (match a.end {
        Some(end) => time_separator() + stamp_text(end, precision),
        None => Seq::empty(),
    }) + field_separator() + escaped(a.project) + field_separator() + escaped(a.description)
        + seq!['\n']
}

/// How long an activity has lasted at the time `now`.
pub open spec fn lasted(a: ActivityView, now: Timestamp) -> Duration {
    match a.end {
        Some(end) => end.elapsed_since(a.start),
        None => now.elapsed_since(a.start),
    }
}

/// A timestamp of the other precision, brought to the precision of the file:
/// rounded to the nearest minute, the later one from the thirtieth second
/// on, or with its seconds set to zero. Only a time in the last half minute
/// of the calendar has no minute to be rounded to.
pub open spec fn coerced(t: Timestamp, precision: Precision) -> Option<Timestamp> {
    match precision {
        Precision::Minute => t.rounded_to_minute(),
        Precision::Second => Some(t.minute_start()),
    }
}

/// What one time of a line reads as, and whether it was read at the other
/// precision than that of the file. The text is trimmed first.
pub open spec fn timepart_reading(part: Seq<char>, precision: Precision) -> (
    Option<Timestamp>,
    bool,
) {
    let text = trimmed(part);
    match datetime_value(text, precision.pattern()) {
        Some(t) => (Some(t), false),
        None => match datetime_value(text, precision.other().pattern()) {
            Some(t) => (coerced(t, precision), true),
            None => (None, false),
        },
    }
}

/// Where the log keeps minutes, a time that only the format with seconds
/// reads comes to the nearest minute, with a warning; it is in error only
/// where the calendar does not hold that minute. (A leap second apart,
/// which is rounded as `chrono` rounds it.)
pub proof fn lemma_time_with_seconds_is_rounded(part: Seq<char>, t: Timestamp)
    requires
        datetime_value(trimmed(part), Precision::Minute.pattern()) is None,
        datetime_value(trimmed(part), Precision::Second.pattern()) == Some(t),
        t.nanos() < crate::data::timestamp::NANOS_PER_SECOND,
    ensures
        timepart_reading(part, Precision::Minute) == (t.nearest_minute(), true),
        t.nearest_minute() is Some <==> (t.secs() + 30) / 60 * 60
            <= crate::data::timestamp::MAX_SECONDS,
{
}

/// Where the log keeps seconds, a time that only the format without
/// seconds reads comes to its minute, with a warning, and is never in error.
pub proof fn lemma_time_without_seconds_is_kept(part: Seq<char>, t: Timestamp)
    requires
        datetime_value(trimmed(part), Precision::Second.pattern()) is None,
        datetime_value(trimmed(part), Precision::Minute.pattern()) == Some(t),
    ensures
        timepart_reading(part, Precision::Second) == (Some(t.minute_start()), true),
{
}

/// A time of a line is in error only where neither format reads it, or
/// where it is read with seconds in the last half minute of the calendar,
/// which has no minute to be rounded to.
pub proof fn lemma_time_in_error(part: Seq<char>, precision: Precision)
    requires
        timepart_reading(part, precision).0 is None,
    ensures
        ({
            let exact = datetime_value(trimmed(part), precision.pattern());
            let other = datetime_value(trimmed(part), precision.other().pattern());
            exact is None && (other is None || (precision == Precision::Minute
                && other.unwrap().nearest_minute() is None))
        }),
{
}

/// A line is in error for want of a segment exactly where it has fewer
/// than two segments; any other error of a line is a time in error.
pub proof fn lemma_line_in_error(s: Seq<char>, precision: Precision)
    ensures
        line_reading(s, precision).0 == Err::<ActivityView, ActivityError>(
            ActivityError::GeneralParseError,
        ) <==> split_segments(s).len() < 2,
        line_reading(s, precision).0 is Err && split_segments(s).len() >= 2 ==> {
            let parts = time_parts(split_segments(s)[0]);
            ||| timepart_reading(parts.0, precision).0 is None
            ||| parts.1 is Some && timepart_reading(parts.1.unwrap(), precision).0 is None
        },
{
}

/// The start of the time segment of a line, and its end where the segment
/// holds the separator of the two. What follows a second separator counts
/// for nothing.
pub open spec fn time_parts(segment: Seq<char>) -> (Seq<char>, Option<Seq<char>>) {
    match find_from(segment, time_separator(), 0) {
        None => (segment, None),
        Some(i) => {
            let rest = segment.skip(i + 3);
            match find_from(rest, time_separator(), 0) {
                None => (segment.take(i), Some(rest)),
                Some(j) => (segment.take(i), Some(rest.take(j))),
            }
        },
    }
}

/// One if the flag is set.
pub open spec fn count(flag: bool) -> nat {
    if flag {
        1
    } else {
        0
    }
}

/// What a line reads as, and how many of its times were read at the other
/// precision than that of the file.
///
/// A line needs two segments at least: its times and its project. The
/// description is the third segment, or empty; further segments count for
/// nothing. The end is only read where the start is a time.
pub open spec fn line_reading(s: Seq<char>, precision: Precision) -> (
    Result<ActivityView, ActivityError>,
    nat,
) {
    let parts = split_segments(s);
    if parts.len() < 2 {
        (Err(ActivityError::GeneralParseError), 0)
    } else {
        let (first, second) = time_parts(parts[0]);
        let (start, start_coerced) = timepart_reading(first, precision);
        let project = trimmed(parts[1]);
        let description = if parts.len() > 2 {
            trimmed(parts[2])
        } else {
            Seq::empty()
        };
        match (start, second) {
            (None, _) => (Err(ActivityError::DateTimeParseError), count(start_coerced)),
            (Some(start), None) => (
                Ok(ActivityView { start, end: None, project, description }),
                count(start_coerced),
            ),
            (Some(start), Some(second)) => {
                let (end, end_coerced) = timepart_reading(second, precision);
                let warnings = count(start_coerced) + count(end_coerced);
                match end {
                    None => (Err(ActivityError::DateTimeParseError), warnings),
                    Some(end) => (
                        Ok(ActivityView { start, end: Some(end), project, description }),
                        warnings,
                    ),
                }
            },
        }
    }
}

/// Whether a result of reading a line is the one that the format gives.
pub open spec fn reads_as(
    r: Result<Activity, ActivityError>,
    expected: Result<ActivityView, ActivityError>,
) -> bool {
    match r {
        Ok(a) => expected == Ok::<ActivityView, ActivityError>(a@),
        Err(e) => expected == Err::<ActivityView, ActivityError>(e),
    }
}

/// What one time of a line comes to, given what was read of it: `exact` at
/// the precision of the file, `other` at the other precision, and `rounded`,
/// which is `other` rounded to the minute, if the calendar has that minute.
/// The flag tells whether the time was read at the other precision only.
pub open spec fn resolved(
    exact: Option<Timestamp>,
    other: Option<Timestamp>,
    rounded: Option<Timestamp>,
    precision: Precision,
) -> (Result<Timestamp, ActivityError>, bool) {
    match (exact, other) {
        (Some(t), _) => (Ok(t), false),
        (None, None) => (Err(ActivityError::DateTimeParseError), false),
        (None, Some(t)) => match precision {
            Precision::Second => (Ok(t.minute_start()), true),
            Precision::Minute => match rounded {
                Some(r) => (Ok(r), true),
                None => (Err(ActivityError::DateTimeParseError), true),
            },
        },
    }
}

/// Settles what one time of a line comes to, once it has been read: the
/// time as the file's precision gives it, or else the time as the other
/// precision gives it, brought to the precision of the file.
pub fn resolve_timepart(
    exact: Option<Timestamp>,
    other: Option<Timestamp>,
    rounded: Option<Timestamp>,
    precision: Precision,
) -> (r: (Result<Timestamp, ActivityError>, bool))
    ensures
        r == resolved(exact, other, rounded, precision),
{
    match exact {
        Some(datetime) => (Ok(datetime), false),
        None => match other {
            None => (Err(ActivityError::DateTimeParseError), false),
            Some(datetime) => match precision {
                // a time without seconds where seconds are expected: they are zero
                Precision::Second => (Ok(datetime.truncate_to_minute()), true),
                // a time with seconds where none are expected: the nearest minute
                Precision::Minute => match rounded {
                    Some(datetime) => (Ok(datetime), true),
                    None => (Err(ActivityError::DateTimeParseError), true),
                },
            },
        },
    }
}

/// Reads one time of a line: at the precision of the file, or else at the
/// other precision, in which case the time is brought to the precision of
/// the file and the flag is set, so that the caller can warn the user.
pub fn parse_timepart(time_part: &str, precision: Precision) -> (r: (
    Result<Timestamp, ActivityError>,
    bool,
))
    ensures
        r.1 == timepart_reading(time_part@, precision).1,
        match r.0 {
            Ok(t) => timepart_reading(time_part@, precision).0 == Some(t),
            Err(e) => e == ActivityError::DateTimeParseError && timepart_reading(
                time_part@,
                precision,
            ).0 is None,
        },
{
    let text = trim(time_part);
    let exact = parse_datetime(text.as_str(), precision.format());
    // presume that a time that was not read has the other precision
    let other = match exact {
        Some(_) => None,
        None => parse_datetime(text.as_str(), precision.fallback().format()),
    };
    let rounded = match (other, precision) {
        (Some(datetime), Precision::Minute) => datetime.round_to_nearest_minute(),
        _ => None,
    };
    resolve_timepart(exact, other, rounded, precision)
}

impl Activity {
    /// A running activity that starts at `time`, or now.
    #[must_use]
    pub fn start(project: String, description: String, time: Option<Timestamp>) -> (r: Activity)
        ensures
            time is Some ==> r.start == time.unwrap(),
            r.end is None,
            r.project == project,
            r.description == description,
    {
        let start = match time {
            Some(t) => t,
            None => current_time(),
        };
        Activity { start, end: None, project, description }
    }

    /// Stops the activity at `time`, or now.
    pub fn stop(&mut self, time: Option<Timestamp>)
        ensures
            final(self).end is Some,
            time is Some ==> final(self).end == time,
            final(self).start == old(self).start,
            final(self).project == old(self).project,
            final(self).description == old(self).description,
    {
        let end = match time {
            Some(t) => t,
            None => current_time(),
        };
        self.end = Some(end);
    }

    /// Whether the activity has an end.
    #[must_use]
    pub fn is_stopped(&self) -> (r: bool)
        ensures
            r == self.end is Some,
    {
        self.end.is_some()
    }

    /// How long the activity has lasted at the time `now`: up to its end,
    /// or up to `now` while it is running.
    #[must_use]
    pub fn duration_at(&self, now: Timestamp) -> (r: Duration)
        ensures
            r == lasted(self@, now),
            r.is_regular(),
            -17_000_000_000_000 < r.seconds < 17_000_000_000_000,
    {
        match self.end {
            Some(end) => end.signed_duration_since(&self.start),
            None => now.signed_duration_since(&self.start),
        }
    }

    /// How long the activity has lasted: up to its end, or up to now while
    /// it is running.
    #[must_use]
    pub fn get_duration(&self) -> (r: Duration)
        ensures
            self.end is Some ==> r == self.end.unwrap().elapsed_since(self.start),
            r.is_regular(),
            -17_000_000_000_000 < r.seconds < 17_000_000_000_000,
    {
        self.duration_at(current_time())
    }

    /// The line of the activity, with the line feed that ends it.
    ///
    /// The line has three segments, whatever the activity holds: its
    /// times, its project and its description, since a written time holds
    /// no pipe. Reading the line gives the activity back, without a
    /// warning, provided that its times hold nothing finer than the
    /// precision writes and that neither its project nor its description
    /// begins or ends with white space.
    pub fn to_string(&self, precision: Precision) -> (r: String)
        ensures
            r@ == line_text(self@, precision),
            is_stamp_text(stamp_text(self.start, precision)),
            self.end is Some ==> is_stamp_text(stamp_text(self.end.unwrap(), precision)),
            split_segments(r@) == line_segments(self@, precision),
            survives(self@, precision) ==> line_reading(r@, precision) == (
                Ok::<ActivityView, ActivityError>(self@),
                0nat,
            ),
    {
        let start = self.start;
        proof {
            use_type_invariant(&start);
        }
        let mut line = format_datetime(start, precision.format());
        let ghost start_text = line@;
        let ghost end_text: Option<Seq<char>> = None;
        if let Some(end) = self.end {
            proof {
                use_type_invariant(&end);
                reveal_strlit(" - ");
                assert(" - "@ =~= time_separator());
            }
            line.append(" - ");
            let text = format_datetime(end, precision.format());
            line.append(text.as_str());
            proof {
                end_text = Some(text@);
            }
        }
        proof {
            reveal_strlit(" | ");
            assert(" | "@ =~= field_separator());
        }
        line.append(" | ");
        line.append(escape_special_chars(self.project.as_str()).as_str());
        line.append(" | ");
        line.append(escape_special_chars(self.description.as_str()).as_str());
        line.push('\n');
        proof {
            assert(line@ =~= line_text(self@, precision));
            assert(line@ =~= composed(start_text, end_text, self.project@, self.description@));
            lemma_segments_composed(start_text, end_text, self.project@, self.description@);
            if survives(self@, precision) {
                lemma_reading_composed(
                    self@,
                    precision,
                    start_text,
                    end_text,
                );
            }
        }
        line
    }

    /// Reads a line of the log, and counts the times in it that were read at
    /// the other precision than that of the file.
    pub fn parse(s: &str, precision: Precision) -> (r: (Result<Activity, ActivityError>, u8))
        ensures
            reads_as(r.0, line_reading(s@, precision).0),
            r.1 == line_reading(s@, precision).1,
    {
        let parts: Vec<String> = split_with_escaped_delimiter(s).collect();
        if parts.len() < 2 {
            return (Err(ActivityError::GeneralParseError), 0);
        }
        assert(texts(parts@)[0] == parts@[0]@);
        assert(texts(parts@)[1] == parts@[1]@);

        let times = chars_of(parts[0].as_str());
        let separator: Vec<char> = vec![' ', '-', ' '];
        assert(separator@ =~= time_separator());
        let first_end = match find(&times, &separator, 0) {
            Some(i) => i,
            None => times.len(),
        };
        let first = text_of(&times, 0, first_end);
        assert(times@.subrange(0, first_end as int) =~= times@.take(first_end as int));
        assert(times@.take(times.len() as int) =~= times@);
        let (start, start_coerced) = parse_timepart(first.as_str(), precision);
        let mut warnings: u8 = if start_coerced {
            1
        } else {
            0
        };
        let start = match start {
            Ok(t) => t,
            Err(e) => {
                return (Err(e), warnings);
            },
        };
        let end: Option<Timestamp> = if first_end < times.len() {
            let from = first_end + 3;
            let ghost rest = times@.skip(from as int);
            let to = match find(&times, &separator, from) {
                Some(j) => j,
                None => times.len(),
            };
            proof {
                lemma_find_shifted(times@, time_separator(), from as int, from as int);
                assert(times@.subrange(from as int, to as int) =~= rest.take(to - from));
                assert(rest.take(rest.len() as int) =~= rest);
            }
            let second = text_of(&times, from, to);
            let (end, end_coerced) = parse_timepart(second.as_str(), precision);
            if end_coerced {
                warnings = warnings + 1;
            }
            match end {
                Ok(t) => Some(t),
                Err(e) => {
                    return (Err(e), warnings);
                },
            }
        } else {
            None
        };

        let project = trim(parts[1].as_str());
        let description = if parts.len() > 2 {
            assert(texts(parts@)[2] == parts@[2]@);
            trim(parts[2].as_str())
        } else {
            String::new()
        };
        (Ok(Activity { start, end, project, description }), warnings)
    }

    /// Reads a line of the log.
    pub fn from_str(s: &str, precision: Precision) -> (r: Result<Activity, ActivityError>)
        ensures
            reads_as(r, line_reading(s@, precision).0),
    {
        Activity::parse(s, precision).0
    }
}

/// Searching in what is left behind `skip` is searching in the whole from
/// `skip` on.
pub proof fn lemma_find_shifted(s: Seq<char>, pattern: Seq<char>, skip: int, from: int)
    requires
        0 <= skip <= from <= s.len(),
    ensures
        find_from(s, pattern, from) == match find_from(s.skip(skip), pattern, from - skip) {
            Some(i) => Some(i + skip),
            None => None,
        },
    decreases s.len() - from,
{
    let t = s.skip(skip);
    if from + pattern.len() <= s.len() {
        assert(t.subrange(from - skip, from - skip + pattern.len()) =~= s.subrange(
            from,
            from + pattern.len(),
        ));
        if s.subrange(from, from + pattern.len()) != pattern && from < s.len() {
            lemma_find_shifted(s, pattern, skip, from + 1);
        }
    }
}

/// Whether an activity can be written at a precision and read again without
/// loss: its times hold nothing finer than the precision writes, and neither
/// its project nor its description begins or ends with white space.
pub open spec fn survives(a: ActivityView, precision: Precision) -> bool {
    &&& a.start.at_precision(precision)
    &&& a.end is Some ==> a.end.unwrap().at_precision(precision)
    &&& is_trimmed(a.project)
    &&& is_trimmed(a.description)
}

/// A line made of the texts of its times and of its two fields.
pub open spec fn composed(
    start: Seq<char>,
    end: Option<Seq<char>>,
    project: Seq<char>,
    description: Seq<char>,
) -> Seq<char> {
    start + (match end {
        Some(end) => time_separator() + end,
        None => Seq::empty(),
    }) + field_separator() + escaped(project) + field_separator() + escaped(description)
        + seq!['\n']
}

/// A written timestamp holds neither a pipe nor a backslash, and no white
/// space at its ends.
pub proof fn lemma_stamp_text(s: Seq<char>)
    requires
        is_stamp_text(s),
    ensures
        is_plain(s),
        is_trimmed(s),
        s.len() > 0,
{
    assert forall|i: int| 0 <= i < s.len() implies #[trigger] s[i] != DELIMITER && s[i]
        != ESCAPE by {
        assert(is_stamp_char(s[i]));
    }
    assert(is_stamp_char(s[0]));
    assert(is_stamp_char(s[s.len() - 1]));
    if s.last() == ' ' {
        assert(s[s.len() - 1] == ' ');
    }
}

/// A written timestamp with a blank behind it holds no separator of times.
pub proof fn lemma_no_separator(s: Seq<char>)
    requires
        is_stamp_text(s),
    ensures
        find_from(s + seq![' '], time_separator(), 0) is None,
{
    let whole = s + seq![' '];
    assert forall|i: int| 0 <= i && i + 3 <= whole.len() implies #[trigger] whole.subrange(
        i,
        i + 3,
    ) != time_separator() by {
        let part = whole.subrange(i, i + 3);
        if part == time_separator() {
            assert(part[0] == ' ' && part[1] == '-');
            assert(whole[i] == s[i] && whole[i + 1] == s[i + 1]);
            assert(s[i] == ' ');
        }
    }
    lemma_find_none(whole, time_separator(), 0);
}

/// The time segment of a running activity is its start.
pub proof fn lemma_time_parts_running(start: Seq<char>)
    requires
        is_stamp_text(start),
    ensures
        time_parts(start + seq![' ']) == (start + seq![' '], None::<Seq<char>>),
{
    lemma_no_separator(start);
}

/// The time segment of a stopped activity is its start and its end.
pub proof fn lemma_time_parts_stopped(start: Seq<char>, end: Seq<char>)
    requires
        is_stamp_text(start),
        is_stamp_text(end),
    ensures
        time_parts(start + time_separator() + end + seq![' ']) == (start, Some(end + seq![' '])),
{
    let whole = start + time_separator() + end + seq![' '];
    let at = start.len() as int;
    assert(whole.subrange(at, at + 3) =~= time_separator());
    assert forall|i: int| 0 <= i < at implies #[trigger] whole.subrange(i, i + 3)
        != time_separator() by {
        let part = whole.subrange(i, i + 3);
        if part == time_separator() {
            assert(part[0] == ' ' && part[1] == '-');
            assert(whole[i] == start[i]);
            if i + 1 < at {
                assert(whole[i + 1] == start[i + 1]);
            }
            assert(start[i] == ' ');
        }
    }
    lemma_find_first(whole, time_separator(), 0, at);
    assert(whole.skip(at + 3) =~= end + seq![' ']);
    assert(whole.take(at) =~= start);
    lemma_no_separator(end);
}

/// The segments of a line made of written timestamps and two fields: the
/// times with a blank behind them, the project between two blanks, and the
/// description between a blank and the line feed.
pub open spec fn composed_segments(
    start: Seq<char>,
    end: Option<Seq<char>>,
    project: Seq<char>,
    description: Seq<char>,
) -> Seq<Seq<char>> {
    seq![
        start + (match end {
            Some(end) => time_separator() + end,
            None => Seq::empty(),
        }) + seq![' '],
        seq![' '] + project + seq![' '],
        seq![' '] + description + seq!['\n'],
    ]
}

/// The segments of the line of an activity.
pub open spec fn line_segments(a: ActivityView, precision: Precision) -> Seq<Seq<char>> {
    composed_segments(
        stamp_text(a.start, precision),
        match a.end {
            Some(end) => Some(stamp_text(end, precision)),
            None => None,
        },
        a.project,
        a.description,
    )
}

/// A line made of written timestamps and two fields has three segments,
/// whatever the fields hold: its times, its project and its description,
/// each with the white space around it.
pub proof fn lemma_segments_composed(
    start: Seq<char>,
    end: Option<Seq<char>>,
    project: Seq<char>,
    description: Seq<char>,
)
    requires
        is_stamp_text(start),
        end is Some ==> is_stamp_text(end.unwrap()),
    ensures
        split_segments(composed(start, end, project, description)) == composed_segments(
            start,
            end,
            project,
            description,
        ),
{
    let blank = seq![' '];
    let feed = seq!['\n'];
    let bar = seq![DELIMITER];
    let head = start + (match end {
        Some(end) => time_separator() + end,
        None => Seq::empty(),
    });
    let times = head + blank;
    let line = composed(start, end, project, description);

    lemma_stamp_text(start);
    if end is Some {
        lemma_stamp_text(end.unwrap());
    }
    assert(is_plain(times)) by {
        assert forall|i: int| 0 <= i < times.len() implies #[trigger] times[i] != DELIMITER
            && times[i] != ESCAPE by {
            if i < start.len() {
                assert(times[i] == start[i]);
            } else if end is Some && i >= start.len() + 3 && i < start.len() + 3
                + end.unwrap().len() {
                assert(times[i] == end.unwrap()[i - start.len() - 3]);
            }
        }
    }
    lemma_escaped_plain(times);
    lemma_escaped_plain(blank);
    lemma_escaped_plain(feed);
    lemma_escaped_by_char(project);
    lemma_escaped_by_char(description);
    lemma_escaped_concat(blank, project);
    lemma_escaped_concat(blank + project, blank);
    lemma_escaped_concat(blank, description);
    lemma_escaped_concat(blank + description, feed);
    assert(line =~= escaped_by_char(times) + bar + escaped_by_char(blank + project + blank) + bar
        + escaped_by_char(blank + description + feed));
    lemma_split_three(times, blank + project + blank, blank + description + feed);
}

/// A line made of written timestamps that read back as the times of an
/// activity, and of the activity's fields, reads as the activity.
pub proof fn lemma_reading_composed(
    a: ActivityView,
    precision: Precision,
    start: Seq<char>,
    end: Option<Seq<char>>,
)
    requires
        is_stamp_text(start),
        datetime_value(start, precision.pattern()) == Some(a.start),
        end is Some == a.end is Some,
        end is Some ==> is_stamp_text(end.unwrap()) && datetime_value(
            end.unwrap(),
            precision.pattern(),
        ) == a.end,
        is_trimmed(a.project),
        is_trimmed(a.description),
    ensures
        line_reading(composed(start, end, a.project, a.description), precision) == (
            Ok::<ActivityView, ActivityError>(a),
            0nat,
        ),
{
    let blank = seq![' '];
    let feed = seq!['\n'];
    let line = composed(start, end, a.project, a.description);
    lemma_segments_composed(start, end, a.project, a.description);
    let parts = split_segments(line);
    let expected = composed_segments(start, end, a.project, a.description);
    assert(parts.len() == 3);
    assert(parts[0] == expected[0] && parts[1] == expected[1] && parts[2] == expected[2]);

    lemma_stamp_text(start);
    assert(is_white_space(' ') && is_white_space('\n'));
    lemma_trimmed_padded(blank, a.project, blank);
    lemma_trimmed_padded(blank, a.description, feed);
    match end {
        None => {
            assert(parts[0] =~= start + blank);
            lemma_time_parts_running(start);
            lemma_trimmed_padded(Seq::empty(), start, blank);
            assert(Seq::<char>::empty() + start + blank =~= start + blank);
        },
        Some(end_text) => {
            lemma_stamp_text(end_text);
            assert(parts[0] =~= start + time_separator() + end_text + blank);
            lemma_time_parts_stopped(start, end_text);
            lemma_trimmed_padded(Seq::empty(), start, Seq::empty());
            assert(Seq::<char>::empty() + start + Seq::<char>::empty() =~= start);
            lemma_trimmed_padded(Seq::empty(), end_text, blank);
            assert(Seq::<char>::empty() + end_text + blank =~= end_text + blank);
        },
    }
}

} // verus!
