//! The status: what is running, and the time of today, of the week and of
//! the month.
use vstd::prelude::*;
use vstd::string::StringExecFns;
use crate::data::activity::{lasted, Activity, ActivityView};
use crate::data::timestamp::{Duration, Precision, Timestamp};
use crate::view::format_util::{duration_text, format_duration};
use crate::view::render::{prefix_text, style_infix, style_prefix, suffix_text, TextStyle};
use crate::view::report::{dotted, write_dotted};

verus! {

/// What the status shows.
pub struct StatusReportData<'a> {
    /// The activity that is running, if one is.
    pub activity: Option<&'a Activity>,
    /// The pattern of the projects that the status is about, if it is not about all.
    pub project: Option<&'a str>,
    pub today: Duration,
    pub current_week: Duration,
    pub current_month: Duration,
}

/// Writes the status as text.
pub struct StatusReport {}

/// The width to which the names of the times are filled up with dots.
pub const STATUS_LINE_WIDTH: usize = 30;

/// A text in a style: between the escape sequence that switches the style
/// on and the one that resets the terminal.
pub open spec fn styled(text: Seq<char>, style: TextStyle) -> Seq<char> {
    prefix_text(style) + text + suffix_text()
}

/// The title of the status: for all projects, or for those of a pattern.
pub open spec fn title_text(project: Option<Seq<char>>) -> Seq<char> {
    styled("\n ======="@, TextStyle::Dimmed) + (match project {
        Some(project) => styled(" Status for project: "@, TextStyle::Italic) + styled(
            project,
            TextStyle::Bold,
        ),
        None => styled(" Status for "@, TextStyle::Italic) + styled("ALL"@, TextStyle::Bold)
            + styled(" projects "@, TextStyle::Italic),
    }) + styled(" ======= \n"@, TextStyle::Dimmed)
}

/// What is running now: the description of the activity, its project
/// unless the status is about the projects of a pattern, and how long it
/// has lasted.
pub open spec fn now_text(
    activity: Option<ActivityView>,
    with_project: bool,
    now: Timestamp,
    precision: Precision,
) -> Seq<char> {
    styled("\n  NOW: "@, TextStyle::DimmedItalic) + (match activity {
        Some(activity) => styled(activity.description, TextStyle::BoldGreen) + (if with_project {
            styled(" on "@, TextStyle::DimmedItalic) + styled(activity.project, TextStyle::Italic)
        } else {
            Seq::empty()
        }) + styled(" ...... "@, TextStyle::Dimmed) + styled(
            duration_text(lasted(activity, now), precision),
            TextStyle::Bold,
        ) + styled("\n\n"@, TextStyle::Dimmed),
        None => styled(" NO Activity\n\n"@, TextStyle::Bold),
    })
}

/// A time under its name: the name filled up with dots, and the time in bold.
pub open spec fn period_text(name: Seq<char>, duration: Seq<char>, line_width: int) -> Seq<char> {
    styled(seq![' '], TextStyle::Italic) + styled(
        seq![' '] + dotted(name, line_width) + seq![' '],
        TextStyle::DimmedItalic,
    ) + styled(duration, TextStyle::Bold) + styled(seq!['\n'], TextStyle::Italic)
}

/// The status as text.
pub open spec fn status_text(data: StatusReportData, now: Timestamp, precision: Precision) -> Seq<
    char,
> {
    title_text(
        match data.project {
            Some(project) => Some(project@),
            None => None,
        },
    ) + now_text(
        match data.activity {
            Some(activity) => Some(activity@),
            None => None,
        },
        data.project is None,
        now,
        precision,
    ) + period_text(
        "Today"@,
        duration_text(data.today, precision),
        STATUS_LINE_WIDTH as int,
    ) + period_text(
        "Current week"@,
        duration_text(data.current_week, precision),
        STATUS_LINE_WIDTH as int,
    ) + period_text(
        "Current month"@,
        duration_text(data.current_month, precision),
        STATUS_LINE_WIDTH as int,
    )
}

/// Writes a text in a style.
pub fn write(f: &mut String, text: &str, style: TextStyle)
    ensures
        final(f)@ == old(f)@ + styled(text@, style),
{
    f.append(style_prefix(style).as_str());
    f.append(text);
    f.append(style_infix(style).as_str());
    assert(final(f)@ =~= old(f)@ + styled(text@, style));
}

/// Writes a name in a style, filled up with dots to a width, between two blanks.
pub fn write_period(f: &mut String, text: &str, line_width: usize, style: TextStyle)
    ensures
        final(f)@ == old(f)@ + styled(
            seq![' '] + dotted(text@, line_width as int) + seq![' '],
            style,
        ),
{
    f.append(style_prefix(style).as_str());
    f.push(' ');
    write_dotted(f, text, line_width);
    f.push(' ');
    f.append(style_infix(style).as_str());
    assert(final(f)@ =~= old(f)@ + styled(
        seq![' '] + dotted(text@, line_width as int) + seq![' '],
        style,
    ));
}

/// Writes a time under its name.
pub fn print_duration(
    f: &mut String,
    name: &str,
    total_duration: Duration,
    line_width: usize,
    precision: Precision,
)
    ensures
        final(f)@ == old(f)@ + period_text(
            name@,
            duration_text(total_duration, precision),
            line_width as int,
        ),
{
    proof {
        reveal_strlit(" ");
        reveal_strlit("\n");
        assert(" "@ =~= seq![' ']);
        assert("\n"@ =~= seq!['\n']);
    }
    write(f, " ", TextStyle::Italic);
    write_period(f, name, line_width, TextStyle::DimmedItalic);
    write(f, format_duration(&total_duration, precision).as_str(), TextStyle::Bold);
    write(f, "\n", TextStyle::Italic);
    assert(final(f)@ =~= old(f)@ + period_text(
        name@,
        duration_text(total_duration, precision),
        line_width as int,
    ));
}

/// Writes what is running now.
pub fn print_activity(
    f: &mut String,
    activity: Option<&Activity>,
    project: Option<&str>,
    now: Timestamp,
    precision: Precision,
)
    ensures
        final(f)@ == old(f)@ + now_text(
            match activity {
                Some(activity) => Some(activity@),
                None => None,
            },
            project is None,
            now,
            precision,
        ),
{
    match activity {
        Some(activity) => {
            write(f, "\n  NOW: ", TextStyle::DimmedItalic);
            write(f, activity.description.as_str(), TextStyle::BoldGreen);
            if project.is_none() {
                write(f, " on ", TextStyle::DimmedItalic);
                write(f, activity.project.as_str(), TextStyle::Italic);
            }
            write(f, " ...... ", TextStyle::Dimmed);
            write(
                f,
                format_duration(&activity.duration_at(now), precision).as_str(),
                TextStyle::Bold,
            );
            write(f, "\n\n", TextStyle::Dimmed);
            assert(final(f)@ =~= old(f)@ + now_text(Some(activity@), project is None, now, precision));
        },
        None => {
            write(f, "\n  NOW: ", TextStyle::DimmedItalic);
            write(f, " NO Activity\n\n", TextStyle::Bold);
            assert(final(f)@ =~= old(f)@ + now_text(None, project is None, now, precision));
        },
    }
}

/// Writes the title of the status.
pub fn print_title(f: &mut String, project: Option<&str>)
    ensures
        final(f)@ == old(f)@ + title_text(
            match project {
                Some(project) => Some(project@),
                None => None,
            },
        ),
{
    match project {
        Some(project) => {
            write(f, "\n =======", TextStyle::Dimmed);
            write(f, " Status for project: ", TextStyle::Italic);
            write(f, project, TextStyle::Bold);
            write(f, " ======= \n", TextStyle::Dimmed);
            assert(final(f)@ =~= old(f)@ + title_text(Some(project@)));
        },
        None => {
            write(f, "\n =======", TextStyle::Dimmed);
            write(f, " Status for ", TextStyle::Italic);
            write(f, "ALL", TextStyle::Bold);
            write(f, " projects ", TextStyle::Italic);
            write(f, " ======= \n", TextStyle::Dimmed);
            assert(final(f)@ =~= old(f)@ + title_text(None));
        },
    }
}

impl<'a> StatusReportData<'a> {
    /// The status as text.
    pub fn to_string(&self, now: Timestamp, precision: Precision) -> (r: String)
        ensures
            r@ == status_text(*self, now, precision),
    {
        let longest_line = STATUS_LINE_WIDTH;
        let mut f = String::new();
        print_title(&mut f, self.project);
        print_activity(&mut f, self.activity, self.project, now, precision);
        print_duration(&mut f, "Today", self.today, longest_line, precision);
        print_duration(&mut f, "Current week", self.current_week, longest_line, precision);
        print_duration(&mut f, "Current month", self.current_month, longest_line, precision);
        assert(f@ =~= status_text(*self, now, precision));
        f
    }
}

impl StatusReport {
    /// The status as text, with the line feed that ends it.
    pub fn process(&self, data: &StatusReportData, now: Timestamp, precision: Precision) -> (r:
        String)
        ensures
            r@ == status_text(*data, now, precision) + seq!['\n'],
    {
        let mut text = data.to_string(now, precision);
        text.push('\n');
        text
    }
}

} // verus!
