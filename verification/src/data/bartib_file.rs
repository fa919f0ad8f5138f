//! The lines of a log file, and the text that a file is replaced with.
use vstd::prelude::*;
use vstd::string::StringExecFns;
use crate::data::activity::{
    line_reading, line_text, Activity, ActivityError, ActivityView,
};
use crate::data::escaping::texts;
use crate::data::text::{lemma_trimmed_is_trimmed, trim, trimmed};
use crate::data::timestamp::Precision;

verus! {

/// Whether a line is as the file holds it.
#[derive(Debug, Clone, Copy, PartialEq, Eq, Structural)]
pub enum LineStatus {
    Unchanged,
    Changed,
}

/// A line of a log file.
///
/// A line that was read from a file is `Unchanged` until `set_changed` is
/// called on it; a line that was made for an activity is `Changed` from the
/// start. Nothing in this library makes a changed line unchanged again, and
/// nothing marks a line as changed that holds no activity.
#[derive(Debug)]
pub struct Line {
    /// The text of the line as it was read from the file, kept so that an
    /// untouched line is written back as it was.
    pub plaintext: Option<String>,
    /// The number of the line in the file, from one.
    pub line_number: Option<usize>,
    /// What the line reads as.
    pub activity: Result<Activity, ActivityError>,
    /// Whether the line is still as the file holds it.
    pub status: LineStatus,
}

/// A line with its texts as sequences of characters.
pub struct LineView {
    pub plaintext: Option<Seq<char>>,
    pub line_number: Option<usize>,
    pub activity: Result<ActivityView, ActivityError>,
    pub status: LineStatus,
}

impl View for Line {
    type V = LineView;

    open spec fn view(&self) -> LineView {
        LineView {
            plaintext: match self.plaintext {
                Some(text) => Some(text@),
                None => None,
            },
            line_number: self.line_number,
            activity: match self.activity {
                Ok(activity) => Ok(activity@),
                Err(e) => Err(e),
            },
            status: self.status,
        }
    }
}

/// The line that a file's line with the given text and number is read as:
/// it keeps the trimmed text, and holds what that text reads as.
pub open spec fn line_read(text: Seq<char>, line_number: usize, precision: Precision) -> LineView {
    LineView {
        plaintext: Some(trimmed(text)),
        line_number: Some(line_number),
        activity: line_reading(trimmed(text), precision).0,
        status: LineStatus::Unchanged,
    }
}

/// The line of an activity that no file holds yet.
pub open spec fn line_made(activity: ActivityView) -> LineView {
    LineView {
        plaintext: None,
        line_number: None,
        activity: Ok(activity),
        status: LineStatus::Changed,
    }
}

impl Line {
    /// The line of a file, with its number in the file. It keeps the text
    /// without the white space at its two ends, and holds what that text
    /// reads as, so that the text it keeps reads as the line itself.
    #[must_use]
    pub fn new(plaintext: &str, line_number: usize, precision: Precision) -> (r: Line)
        ensures
            r@ == line_read(plaintext@, line_number, precision),
    {
        let text = trim(plaintext);
        let activity = Activity::from_str(text.as_str(), precision);
        Line {
            plaintext: Some(text),
            line_number: Some(line_number),
            activity,
            status: LineStatus::Unchanged,
        }
    }

    /// The line of an activity that no file holds yet.
    #[must_use]
    pub fn for_activity(activity: Activity) -> (r: Line)
        ensures
            r@ == line_made(activity@),
            r.activity == Ok::<Activity, ActivityError>(activity),
    {
        Line { plaintext: None, line_number: None, activity: Ok(activity), status: LineStatus::Changed }
    }

    /// Marks the line as changed, so that it is written anew.
    pub fn set_changed(&mut self)
        ensures
            final(self).status == LineStatus::Changed,
            final(self).plaintext == old(self).plaintext,
            final(self).line_number == old(self).line_number,
            final(self).activity == old(self).activity,
    {
        self.status = LineStatus::Changed;
    }
}

/// The views of a sequence of lines.
pub open spec fn views(lines: Seq<Line>) -> Seq<LineView> {
    Seq::new(lines.len(), |i: int| lines[i]@)
}

/// What the lines of a file are read as: one line each, in the order of the
/// file, numbered from one, whether it holds an activity or not.
pub open spec fn lines_read(texts: Seq<Seq<char>>, precision: Precision) -> Seq<LineView> {
    Seq::new(texts.len(), |i: int| line_read(texts[i], (i + 1) as usize, precision))
}

/// What is written for one line.
///
/// An unchanged line is written as it was read, whatever it was read as. A
/// changed line, and a line that has no text of its own, is written anew
/// from its activity.
pub open spec fn written(line: LineView, precision: Precision) -> Seq<char> {
    match (line.status, line.plaintext) {
        (LineStatus::Unchanged, Some(text)) => text + seq!['\n'],
        _ => match line.activity {
            Ok(activity) => line_text(activity, precision),
            Err(_) => Seq::empty(),
        },
    }
}

/// The text that replaces a file: what is written for its lines, in order.
pub open spec fn file_text(lines: Seq<LineView>, precision: Precision) -> Seq<char>
    decreases lines.len(),
{
    if lines.len() == 0 {
        Seq::empty()
    } else {
        file_text(lines.drop_last(), precision) + written(lines.last(), precision)
    }
}

/// Whether a line can be written: a changed line has to hold an activity.
pub open spec fn is_writable(line: LineView) -> bool {
    line.status == LineStatus::Changed ==> line.activity is Ok
}

/// The texts of a file's lines as they are written back when nothing was
/// changed: each one trimmed, with a line feed behind it.
pub open spec fn replayed(texts: Seq<Seq<char>>) -> Seq<char>
    decreases texts.len(),
{
    if texts.len() == 0 {
        Seq::empty()
    } else {
        replayed(texts.drop_last()) + trimmed(texts.last()) + seq!['\n']
    }
}

/// The lines of a file, from the texts of its lines.
pub fn get_file_content(lines: &Vec<String>, precision: Precision) -> (r: Vec<Line>)
    ensures
        views(r@) == lines_read(texts(lines@), precision),
{
    let mut content: Vec<Line> = Vec::new();
    let mut i: usize = 0;
    while i < lines.len()
        invariant
            i <= lines.len(),
            content.len() == i,
            forall|k: int|
                0 <= k < i ==> (#[trigger] content@[k])@ == line_read(
                    lines@[k]@,
                    (k + 1) as usize,
                    precision,
                ),
        decreases lines.len() - i,
    {
        content.push(Line::new(lines[i].as_str(), i + 1, precision));
        i += 1;
    }
    assert(views(content@) =~= lines_read(texts(lines@), precision));
    content
}

/// What the lines of a file are read as where some of them could not be
/// decoded as text: the others, in the order of the file, each with the
/// number of its place in the file, from one.
pub open spec fn decoded_lines_read(texts: Seq<Option<Seq<char>>>, precision: Precision) -> Seq<
    LineView,
>
    decreases texts.len(),
{
    if texts.len() == 0 {
        Seq::empty()
    } else {
        let before = decoded_lines_read(texts.drop_last(), precision);
        match texts.last() {
            Some(text) => before.push(line_read(text, texts.len() as usize, precision)),
            None => before,
        }
    }
}

/// The texts of some lines of which some could not be decoded.
pub open spec fn decoded_texts(v: Seq<Option<String>>) -> Seq<Option<Seq<char>>> {
    Seq::new(
        v.len(),
        |i: int|
            match v[i] {
                Some(text) => Some(text@),
                None => None,
            },
    )
}

/// The lines of a file, from the texts of its lines, where a line that
/// could not be decoded as text has no text: such a line is passed over,
/// and the others keep the numbers of their places in the file.
pub fn get_decoded_file_content(lines: &Vec<Option<String>>, precision: Precision) -> (r: Vec<Line>)
    ensures
        views(r@) == decoded_lines_read(decoded_texts(lines@), precision),
{
    let ghost all = decoded_texts(lines@);
    let mut content: Vec<Line> = Vec::new();
    let mut i: usize = 0;
    assert(all.take(0) =~= Seq::<Option<Seq<char>>>::empty());
    assert(views(content@) =~= Seq::<LineView>::empty());
    while i < lines.len()
        invariant
            i <= lines.len(),
            all == decoded_texts(lines@),
            views(content@) == decoded_lines_read(all.take(i as int), precision),
        decreases lines.len() - i,
    {
        let ghost before = views(content@);
        proof {
            assert(all.take(i + 1).drop_last() =~= all.take(i as int));
            assert(all.take(i + 1).last() == all[i as int]);
        }
        match &lines[i] {
            Some(text) => {
                content.push(Line::new(text.as_str(), i + 1, precision));
                assert(views(content@) =~= before.push(
                    line_read(text@, (i + 1) as usize, precision),
                ));
            },
            None => {},
        }
        i += 1;
    }
    assert(all.take(i as int) =~= all);
    content
}

/// The text that a file is replaced with when its lines are written.
pub fn write_to_file(file_content: &[Line], precision: Precision) -> (r: String)
    requires
        forall|i: int| 0 <= i < file_content@.len() ==> is_writable((#[trigger] file_content@[i])@),
    ensures
        r@ == file_text(views(file_content@), precision),
{
    let mut text = String::new();
    let mut i: usize = 0;
    assert(views(file_content@).take(0) =~= Seq::<LineView>::empty());
    while i < file_content.len()
        invariant
            i <= file_content.len(),
            forall|i: int|
                0 <= i < file_content@.len() ==> is_writable((#[trigger] file_content@[i])@),
            text@ == file_text(views(file_content@).take(i as int), precision),
        decreases file_content.len() - i,
    {
        let line = &file_content[i];
        let ghost before = views(file_content@).take(i as int);
        let ghost so_far = text@;
        proof {
            let next = views(file_content@).take(i + 1);
            assert(next.drop_last() =~= before);
            assert(next.last() == line@);
            assert(is_writable(file_content@[i as int]@));
        }
        match line.status {
            LineStatus::Unchanged => match &line.plaintext {
                Some(plaintext) => {
                    text.append(plaintext.as_str());
                    text.push('\n');
                    assert(text@ =~= so_far + (plaintext@ + seq!['\n']));
                },
                None => match &line.activity {
                    Ok(activity) => {
                        text.append(activity.to_string(precision).as_str());
                    },
                    Err(_) => {
                        assert(text@ =~= so_far + Seq::<char>::empty());
                    },
                },
            },
            LineStatus::Changed => match &line.activity {
                Ok(activity) => {
                    text.append(activity.to_string(precision).as_str());
                },
                Err(_) => {
                    assert(false);
                },
            },
        }
        i += 1;
    }
    assert(views(file_content@).take(i as int) =~= views(file_content@));
    text
}

/// Writing goes through the lines piece by piece.
pub proof fn lemma_file_text_concat(a: Seq<LineView>, b: Seq<LineView>, precision: Precision)
    ensures
        file_text(a + b, precision) == file_text(a, precision) + file_text(b, precision),
    decreases b.len(),
{
    if b.len() == 0 {
        assert(a + b =~= a);
        assert(file_text(a, precision) + file_text(b, precision) =~= file_text(a, precision));
    } else {
        assert((a + b).drop_last() =~= a + b.drop_last());
        assert((a + b).last() == b.last());
        lemma_file_text_concat(a, b.drop_last(), precision);
        assert(file_text(a, precision) + (file_text(b.drop_last(), precision) + written(
            b.last(),
            precision,
        )) =~= (file_text(a, precision) + file_text(b.drop_last(), precision)) + written(
            b.last(),
            precision,
        ));
    }
}

/// An unchanged line comes out as it was read, at its place between what
/// is written for the lines before it and for those behind it, whatever it
/// reads as and whatever became of the other lines.
pub proof fn lemma_unchanged_line_kept(lines: Seq<LineView>, i: int, precision: Precision)
    requires
        0 <= i < lines.len(),
        lines[i].status == LineStatus::Unchanged,
        lines[i].plaintext is Some,
    ensures
        file_text(lines, precision) == file_text(lines.take(i), precision)
            + lines[i].plaintext.unwrap() + seq!['\n'] + file_text(lines.skip(i + 1), precision),
{
    let one = seq![lines[i]];
    assert(lines =~= lines.take(i) + one + lines.skip(i + 1));
    lemma_file_text_concat(lines.take(i) + one, lines.skip(i + 1), precision);
    lemma_file_text_concat(lines.take(i), one, precision);
    assert(one.drop_last() =~= Seq::<LineView>::empty());
    assert(one.last() == lines[i]);
    assert(file_text(one.drop_last(), precision) =~= Seq::<char>::empty());
    assert(file_text(one, precision) == file_text(one.drop_last(), precision) + written(
        one.last(),
        precision,
    ));
    assert(file_text(one, precision) =~= written(lines[i], precision));
    assert(file_text(lines.take(i), precision) + (lines[i].plaintext.unwrap() + seq!['\n'])
        =~= file_text(lines.take(i), precision) + lines[i].plaintext.unwrap() + seq!['\n']);
}

/// A file that is read and written with nothing changed in between comes
/// out as its lines, trimmed, whether they hold activities or not.
pub proof fn lemma_read_then_written(texts: Seq<Seq<char>>, precision: Precision)
    ensures
        file_text(lines_read(texts, precision), precision) == replayed(texts),
    decreases texts.len(),
{
    let lines = lines_read(texts, precision);
    if texts.len() > 0 {
        lemma_read_then_written(texts.drop_last(), precision);
        assert(lines.drop_last() =~= lines_read(texts.drop_last(), precision));
        assert(file_text(lines.drop_last(), precision) + (trimmed(texts.last()) + seq!['\n'])
            =~= replayed(texts.drop_last()) + trimmed(texts.last()) + seq!['\n']);
    }
}

/// The texts of a file's lines as an unchanged file keeps them: trimmed.
pub open spec fn kept_texts(texts: Seq<Seq<char>>) -> Seq<Seq<char>> {
    Seq::new(texts.len(), |i: int| trimmed(texts[i]))
}

/// The text that a line keeps reads as the line: a line of that text is
/// the same line.
pub proof fn lemma_kept_text_reads_alike(text: Seq<char>, line_number: usize, precision: Precision)
    ensures
        line_read(trimmed(text), line_number, precision) == line_read(text, line_number, precision),
{
    lemma_trimmed_is_trimmed(text);
}

/// A file that was written with nothing changed reads as the file that was
/// read: its lines have the same texts, the same numbers and hold the same
/// activities or errors, and writing them once more gives the same text.
pub proof fn lemma_written_file_reads_alike(texts: Seq<Seq<char>>, precision: Precision)
    ensures
        lines_read(kept_texts(texts), precision) == lines_read(texts, precision),
        replayed(kept_texts(texts)) == replayed(texts),
    decreases texts.len(),
{
    let kept = kept_texts(texts);
    assert forall|i: int| 0 <= i < texts.len() implies lines_read(kept, precision)[i]
        == lines_read(texts, precision)[i] by {
        lemma_kept_text_reads_alike(texts[i], (i + 1) as usize, precision);
    }
    assert(lines_read(kept, precision) =~= lines_read(texts, precision));
    if texts.len() > 0 {
        lemma_written_file_reads_alike(texts.drop_last(), precision);
        assert(kept.drop_last() =~= kept_texts(texts.drop_last()));
        lemma_trimmed_is_trimmed(texts.last());
    }
}

/// The lines of a file are numbered from one, in the order of the file.
pub proof fn lemma_lines_numbered(texts: Seq<Seq<char>>, precision: Precision, i: int)
    requires
        0 <= i < texts.len(),
        texts.len() <= usize::MAX,
    ensures
        lines_read(texts, precision).len() == texts.len(),
        lines_read(texts, precision)[i].line_number == Some((i + 1) as usize),
        (i + 1) as usize == i + 1,
{
}

} // verus!
