//! Tables as text for a terminal.
use vstd::prelude::*;
use vstd::string::{StrSliceExecFns, StringExecFns};
use crate::data::escaping::texts;
use crate::view::table::{column_widths, Color, Group, Row, Table};

verus! {

/// The ways in which a text is set off on a terminal.
#[derive(Debug, Clone, Copy, PartialEq, Eq, Structural)]
pub enum TextStyle {
    Underline,
    Bold,
    Dimmed,
    Italic,
    DimmedItalic,
    BoldGreen,
    Green,
    Yellow,
}

/// The character that fills a cell up to the width of its column: a blank
/// that is not broken and that takes a style, such as underlining.
pub const FILLER: char = '\u{a0}';

/// The width of a terminal that tells none.
pub const DEFAULT_WIDTH: usize = usize::MAX;

/// What `textwrap` makes of a text that is to be no wider than `width`,
/// with `indent` in front of each line: its lines.
pub uninterp spec fn wrapped_lines(text: Seq<char>, width: int, indent: Seq<char>) -> Seq<Seq<char>>;

/// What a terminal is sent before a text in a style.
pub open spec fn prefix_text(style: TextStyle) -> Seq<char> {
    match style {
        TextStyle::Bold => seq!['\u{1b}', '[', '1', 'm'],
        TextStyle::Dimmed => seq!['\u{1b}', '[', '2', 'm'],
        TextStyle::Italic => seq!['\u{1b}', '[', '3', 'm'],
        TextStyle::DimmedItalic => seq!['\u{1b}', '[', '2', ';', '3', 'm'],
        TextStyle::BoldGreen => seq!['\u{1b}', '[', '1', ';', '3', '2', 'm'],
        TextStyle::Underline => seq!['\u{1b}', '[', '4', 'm'],
        TextStyle::Green => seq!['\u{1b}', '[', '3', '2', 'm'],
        TextStyle::Yellow => seq!['\u{1b}', '[', '3', '3', 'm'],
    }
}

/// What a terminal is sent behind a text in a style.
pub open spec fn suffix_text() -> Seq<char> {
    seq!['\u{1b}', '[', '0', 'm']
}

/// `Style::prefix` of `nu_ansi_term`, for the style that stands for
/// `style`: the escape sequence that switches it on, as the crate's source
/// writes it.
#[verifier::external_body]
pub(crate) fn style_prefix(style: TextStyle) -> (r: String)
    ensures
        r@ == prefix_text(style),
{
    let style = match style {
        TextStyle::Bold => nu_ansi_term::Style::new().bold(),
        TextStyle::Dimmed => nu_ansi_term::Style::new().dimmed(),
        TextStyle::Italic => nu_ansi_term::Style::new().italic(),
        TextStyle::DimmedItalic => nu_ansi_term::Style::new().italic().dimmed(),
        TextStyle::BoldGreen => nu_ansi_term::Color::Green.bold(),
        TextStyle::Underline => nu_ansi_term::Style::new().underline(),
        TextStyle::Green => nu_ansi_term::Color::Green.normal(),
        TextStyle::Yellow => nu_ansi_term::Color::Yellow.normal(),
    };
    style.prefix().to_string()
}

/// `Style::suffix` of `nu_ansi_term`, for the style that stands for
/// `style`: the escape sequence that resets the terminal, which is the
/// same for every style that is not plain.
#[verifier::external_body]
pub(crate) fn style_suffix(style: TextStyle) -> (r: String)
    ensures
        r@ == suffix_text(),
{
    let style = match style {
        TextStyle::Bold => nu_ansi_term::Style::new().bold(),
        TextStyle::Dimmed => nu_ansi_term::Style::new().dimmed(),
        TextStyle::Italic => nu_ansi_term::Style::new().italic(),
        TextStyle::DimmedItalic => nu_ansi_term::Style::new().italic().dimmed(),
        TextStyle::BoldGreen => nu_ansi_term::Color::Green.bold(),
        TextStyle::Underline => nu_ansi_term::Style::new().underline(),
        TextStyle::Green => nu_ansi_term::Color::Green.normal(),
        TextStyle::Yellow => nu_ansi_term::Color::Yellow.normal(),
    };
    style.suffix().to_string()
}

/// `Style::infix` of `nu_ansi_term`, from the style that stands for
/// `style` to the plain style: the escape sequence that resets the
/// terminal. The crate writes it wherever bold, dimmed, italic, underlined
/// or coloured text is followed by plain text.
#[verifier::external_body]
pub(crate) fn style_infix(style: TextStyle) -> (r: String)
    ensures
        r@ == suffix_text(),
{
    let style = match style {
        TextStyle::Bold => nu_ansi_term::Style::new().bold(),
        TextStyle::Dimmed => nu_ansi_term::Style::new().dimmed(),
        TextStyle::Italic => nu_ansi_term::Style::new().italic(),
        TextStyle::DimmedItalic => nu_ansi_term::Style::new().italic().dimmed(),
        TextStyle::BoldGreen => nu_ansi_term::Color::Green.bold(),
        TextStyle::Underline => nu_ansi_term::Style::new().underline(),
        TextStyle::Green => nu_ansi_term::Color::Green.normal(),
        TextStyle::Yellow => nu_ansi_term::Color::Yellow.normal(),
    };
    style.infix(nu_ansi_term::Style::new()).to_string()
}

/// `textwrap::wrap` with the options that `Options::new` gives for a
/// width, and with `indent` for the indentation of the first line and of
/// the others. The contract names the lines.
#[verifier::external_body]
pub(crate) fn wrap_text(text: &str, width: usize, indent: &str) -> (r: Vec<String>)
    ensures
        texts(r@) == wrapped_lines(text@, width as int, indent@),
{
    let options = textwrap::Options::new(width).initial_indent(indent).subsequent_indent(indent);
    textwrap::wrap(text, options).into_iter().map(|line| line.into_owned()).collect()
}

/// `term_size::dimensions_stdout`: the width of the terminal, if the
/// output goes to one. Nothing is known of it.
#[verifier::external_body]
pub(crate) fn terminal_width() -> (r: Option<usize>) {
    term_size::dimensions_stdout().map(|d| d.0)
}

/// The style in which a row of a colour is shown.
pub open spec fn style_of(color: Option<Color>) -> Option<TextStyle> {
    match color {
        Some(Color::Green) => Some(TextStyle::Green),
        Some(Color::Yellow) => Some(TextStyle::Yellow),
        None => None,
    }
}

/// `n` times the character `c`.
pub open spec fn filled(c: char, n: int) -> Seq<char> {
    Seq::new(
        if n > 0 {
            n as nat
        } else {
            0
        },
        |i: int| c,
    )
}

/// One line of a cell: the text, filled up to the width of the column,
/// between the prefix and the suffix of the style if there is one, and a
/// blank behind it.
pub open spec fn cell_text(content: Seq<char>, width: int, style: Option<TextStyle>) -> Seq<char> {
    (match style {
        Some(style) => prefix_text(style),
        None => Seq::empty(),
    }) + content + filled(FILLER, width - content.len()) + (match style {
        Some(_) => suffix_text(),
        None => Seq::empty(),
    }) + seq![' ']
}

/// The lines of the cell of column `i`: the text wrapped to the width of
/// the column, or left as it is where no width is known for the column.
pub open spec fn cell_lines(cells: Seq<Seq<char>>, widths: Seq<usize>, i: int) -> Seq<Seq<char>> {
    if i < widths.len() {
        wrapped_lines(cells[i], widths[i] as int, Seq::empty())
    } else {
        seq![cells[i]]
    }
}

/// The most lines that any of the first `upto` cells has.
pub open spec fn most_lines_upto(cells: Seq<Seq<char>>, widths: Seq<usize>, upto: int) -> int
    decreases upto,
{
    if upto <= 0 {
        0
    } else {
        let before = most_lines_upto(cells, widths, upto - 1);
        let here = cell_lines(cells, widths, upto - 1).len() as int;
        if here > before {
            here
        } else {
            before
        }
    }
}

/// How many lines some cells take: as many as the cell with the most
/// lines, and one where there are no cells.
pub open spec fn most_lines(cells: Seq<Seq<char>>, widths: Seq<usize>) -> int {
    if cells.len() == 0 {
        1
    } else {
        most_lines_upto(cells, widths, cells.len() as int)
    }
}

/// How many columns are written: those that have both a cell and a width.
pub open spec fn written_columns(cells: Seq<Seq<char>>, widths: Seq<usize>) -> int {
    if cells.len() < widths.len() {
        cells.len() as int
    } else {
        widths.len() as int
    }
}

/// Line `line` of the first `upto` columns: for each column that line of
/// its cell, or the width of the column in fillers where the cell has no
/// such line.
pub open spec fn line_of_cells(
    cells: Seq<Seq<char>>,
    widths: Seq<usize>,
    style: Option<TextStyle>,
    line: int,
    upto: int,
) -> Seq<char>
    decreases upto,
{
    if upto <= 0 {
        Seq::empty()
    } else {
        let k = upto - 1;
        line_of_cells(cells, widths, style, line, k) + if line < cell_lines(cells, widths, k).len() {
            cell_text(cell_lines(cells, widths, k)[line], widths[k] as int, style)
        } else {
            filled(FILLER, widths[k] as int) + seq![' ']
        }
    }
}

/// The first `lines` lines of some cells, each but the last of all ending
/// in a line feed.
pub open spec fn lines_of_cells(
    cells: Seq<Seq<char>>,
    widths: Seq<usize>,
    style: Option<TextStyle>,
    lines: int,
) -> Seq<char>
    decreases lines,
{
    if lines <= 0 {
        Seq::empty()
    } else {
        lines_of_cells(cells, widths, style, lines - 1) + line_of_cells(
            cells,
            widths,
            style,
            lines - 1,
            written_columns(cells, widths),
        ) + if lines < most_lines(cells, widths) {
            seq!['\n']
        } else {
            Seq::empty()
        }
    }
}

/// Some cells side by side, each wrapped to the width of its column.
pub open spec fn cells_text(cells: Seq<Seq<char>>, widths: Seq<usize>, style: Option<TextStyle>) -> Seq<
    char,
> {
    lines_of_cells(cells, widths, style, most_lines(cells, widths))
}

/// A row of a table, with the line feed that ends it.
pub open spec fn row_text(row: Row, widths: Seq<usize>) -> Seq<char> {
    cells_text(texts(row.content@), widths, style_of(row.style)) + seq!['\n']
}

/// Some rows of a table, one after the other.
pub open spec fn rows_text(rows: Seq<Row>, widths: Seq<usize>) -> Seq<char>
    decreases rows.len(),
{
    if rows.len() == 0 {
        Seq::empty()
    } else {
        rows_text(rows.drop_last(), widths) + row_text(rows.last(), widths)
    }
}

/// A group of rows: an empty line, the title in bold, and the rows.
pub open spec fn group_text(group: Group, widths: Seq<usize>) -> Seq<char> {
    seq!['\n'] + prefix_text(TextStyle::Bold) + (match group.title {
        Some(title) => title@,
        None => Seq::empty(),
    }) + suffix_text() + seq!['\n'] + rows_text(group.rows@, widths)
}

/// Some groups of rows, one after the other.
pub open spec fn groups_text(groups: Seq<Group>, widths: Seq<usize>) -> Seq<char>
    decreases groups.len(),
{
    if groups.len() == 0 {
        Seq::empty()
    } else {
        groups_text(groups.drop_last(), widths) + group_text(groups.last(), widths)
    }
}

/// The labels of the columns of a table.
pub open spec fn label_texts(table: Table) -> Seq<Seq<char>> {
    Seq::new(table.columns@.len(), |i: int| table.columns@[i].label@)
}

/// The widths of the columns of a table on a terminal of a width: each
/// column has a blank behind it, which the columns cannot have.
pub open spec fn widths_on(table: Table, terminal_width: usize) -> Seq<usize> {
    column_widths(
        table.max_column_width(),
        table.column_wraps(),
        (terminal_width - table.columns@.len()) as usize,
    )
}

/// A table as text for a terminal of a width: the labels of its columns,
/// underlined, then its rows, then its groups.
pub open spec fn table_text(table: Table, terminal_width: usize) -> Seq<char> {
    let widths = widths_on(table, terminal_width);
    cells_text(label_texts(table), widths, Some(TextStyle::Underline)) + seq!['\n'] + rows_text(
        table.rows@,
        widths,
    ) + groups_text(table.groups@, widths)
}

/// The width of the lines of a terminal: what the terminal tells, or no
/// bound where it tells nothing, as when the output goes to a file.
pub open spec fn line_width_of(terminal: Option<usize>) -> usize {
    match terminal {
        Some(width) => width,
        None => DEFAULT_WIDTH,
    }
}

/// What is shown of a table on a terminal: its text for the width of the
/// terminal's lines, and nothing where a line has fewer characters than
/// the table has columns.
pub open spec fn table_shown(table: Table, terminal: Option<usize>) -> Option<Seq<char>> {
    if table.columns@.len() <= line_width_of(terminal) {
        Some(table_text(table, line_width_of(terminal)))
    } else {
        None
    }
}

/// Whether a string, or the want of one, is the text that is expected.
pub open spec fn is_text(r: Option<String>, expected: Option<Seq<char>>) -> bool {
    match r {
        Some(text) => expected == Some(text@),
        None => expected is None,
    }
}

/// Writes `n` times the character `c`.
pub fn write_fill(f: &mut String, c: char, n: usize)
    ensures
        final(f)@ == old(f)@ + filled(c, n as int),
{
    let mut i: usize = 0;
    assert(f@ =~= old(f)@ + filled(c, 0));
    while i < n
        invariant
            i <= n,
            f@ == old(f)@ + filled(c, i as int),
        decreases n - i,
    {
        f.push(c);
        i += 1;
        assert(f@ =~= old(f)@ + filled(c, i as int));
    }
}

/// Writes one line of a cell: filled up to the width of its column, in
/// the style if there is one, with a blank behind it.
pub fn write_with_width_and_style(
    f: &mut String,
    content: &str,
    width: usize,
    opt_style: Option<TextStyle>,
)
    ensures
        final(f)@ == old(f)@ + cell_text(content@, width as int, opt_style),
{
    if let Some(style) = opt_style {
        f.append(style_prefix(style).as_str());
    }
    f.append(content);
    // cells are filled with non-breaking white space: contrary to normal spaces it will be
    // styled (e.g. underlined)
    let length = content.unicode_len();
    if length < width {
        write_fill(f, FILLER, width - length);
    } else {
        assert(filled(FILLER, width - content@.len()) =~= Seq::<char>::empty());
    }
    if let Some(style) = opt_style {
        f.append(style_suffix(style).as_str());
    }
    f.push(' ');
    assert(final(f)@ =~= old(f)@ + cell_text(content@, width as int, opt_style));
}

/// Writes some cells side by side, each wrapped to the width of its column.
pub fn write_cells(
    f: &mut String,
    cells: &Vec<String>,
    column_width: &Vec<usize>,
    style: Option<TextStyle>,
)
    ensures
        final(f)@ == old(f)@ + cells_text(texts(cells@), column_width@, style),
{
    let ghost all = texts(cells@);
    let ghost widths = column_width@;
    let mut wrapped_cells: Vec<Vec<String>> = Vec::new();
    let mut most: usize = 0;
    let mut i: usize = 0;
    while i < cells.len()
        invariant
            i <= cells.len(),
            all == texts(cells@),
            widths == column_width@,
            wrapped_cells@.len() == i,
            forall|k: int|
                0 <= k < i ==> texts((#[trigger] wrapped_cells@[k])@) == cell_lines(all, widths, k),
            most == most_lines_upto(all, widths, i as int),
        decreases cells.len() - i,
    {
        let lines = if i < column_width.len() {
            proof {
                reveal_strlit("");
                assert(""@ =~= Seq::<char>::empty());
            }
            wrap_text(cells[i].as_str(), column_width[i], "")
        } else {
            let mut whole: Vec<String> = Vec::new();
            whole.push(cells[i].clone());
            assert(texts(whole@) =~= seq![all[i as int]]);
            whole
        };
        assert(all[i as int] == cells@[i as int]@);
        if lines.len() > most {
            most = lines.len();
        }
        wrapped_cells.push(lines);
        i += 1;
    }
    let most_lines_count: usize = if cells.len() == 0 {
        1
    } else {
        most
    };
    let columns = if cells.len() < column_width.len() {
        cells.len()
    } else {
        column_width.len()
    };
    let mut line: usize = 0;
    assert(f@ =~= old(f)@ + lines_of_cells(all, widths, style, 0));
    while line < most_lines_count
        invariant
            line <= most_lines_count,
            all == texts(cells@),
            widths == column_width@,
            most_lines_count == most_lines(all, widths),
            columns == written_columns(all, widths),
            wrapped_cells@.len() == cells.len(),
            forall|k: int|
                0 <= k < cells.len() ==> texts((#[trigger] wrapped_cells@[k])@) == cell_lines(
                    all,
                    widths,
                    k,
                ),
            f@ == old(f)@ + lines_of_cells(all, widths, style, line as int),
        decreases most_lines_count - line,
    {
        let ghost before = f@;
        let mut k: usize = 0;
        assert(f@ =~= before + line_of_cells(all, widths, style, line as int, 0));
        while k < columns
            invariant
                k <= columns,
                columns == written_columns(all, widths),
                all == texts(cells@),
                widths == column_width@,
                wrapped_cells@.len() == cells.len(),
                forall|j: int|
                    0 <= j < cells.len() ==> texts((#[trigger] wrapped_cells@[j])@) == cell_lines(
                        all,
                        widths,
                        j,
                    ),
                f@ == before + line_of_cells(all, widths, style, line as int, k as int),
            decreases columns - k,
        {
            let ghost so_far = f@;
            let wrapped_cell = &wrapped_cells[k];
            assert(texts(wrapped_cell@) == cell_lines(all, widths, k as int));
            if line < wrapped_cell.len() {
                assert(texts(wrapped_cell@)[line as int] == wrapped_cell@[line as int]@);
                write_with_width_and_style(f, wrapped_cell[line].as_str(), column_width[k], style);
            } else {
                // pad with non breaking space
                write_fill(f, FILLER, column_width[k]);
                f.push(' ');
                assert(f@ =~= so_far + (filled(FILLER, widths[k as int] as int) + seq![' ']));
            }
            assert(f@ =~= before + line_of_cells(all, widths, style, line as int, k + 1));
            k += 1;
        }
        let is_not_last_line = line + 1 < most_lines_count;
        if is_not_last_line {
            f.push('\n');
        }
        line += 1;
        assert(f@ =~= old(f)@ + lines_of_cells(all, widths, style, line as int));
    }
}

fn style_for(color: Option<Color>) -> (r: Option<TextStyle>)
    ensures
        r == style_of(color),
{
    match color {
        Some(Color::Green) => Some(TextStyle::Green),
        Some(Color::Yellow) => Some(TextStyle::Yellow),
        None => None,
    }
}

/// Writes a row of a table, with the line feed that ends it.
pub fn write_row(f: &mut String, row: &Row, column_width: &Vec<usize>)
    ensures
        final(f)@ == old(f)@ + row_text(*row, column_width@),
{
    write_cells(f, &row.content, column_width, style_for(row.style));
    f.push('\n');
    assert(final(f)@ =~= old(f)@ + row_text(*row, column_width@));
}

fn write_rows(f: &mut String, rows: &Vec<Row>, column_width: &Vec<usize>)
    ensures
        final(f)@ == old(f)@ + rows_text(rows@, column_width@),
{
    let mut i: usize = 0;
    assert(rows@.take(0) =~= Seq::<Row>::empty());
    assert(f@ =~= old(f)@ + rows_text(rows@.take(0), column_width@));
    while i < rows.len()
        invariant
            i <= rows.len(),
            f@ == old(f)@ + rows_text(rows@.take(i as int), column_width@),
        decreases rows.len() - i,
    {
        proof {
            assert(rows@.take(i + 1).drop_last() =~= rows@.take(i as int));
            assert(rows@.take(i + 1).last() == rows@[i as int]);
        }
        write_row(f, &rows[i], column_width);
        i += 1;
        assert(f@ =~= old(f)@ + rows_text(rows@.take(i as int), column_width@));
    }
    assert(rows@.take(i as int) =~= rows@);
}

/// Writes a group of rows: an empty line, the title in bold, and the rows.
pub fn write_group(f: &mut String, group: &Group, column_width: &Vec<usize>)
    ensures
        final(f)@ == old(f)@ + group_text(*group, column_width@),
{
    f.push('\n');
    f.append(style_prefix(TextStyle::Bold).as_str());
    if let Some(title) = &group.title {
        f.append(title.as_str());
    }
    f.append(style_suffix(TextStyle::Bold).as_str());
    f.push('\n');
    let ghost head = f@;
    assert(head =~= old(f)@ + (seq!['\n'] + prefix_text(TextStyle::Bold) + (match group.title {
        Some(title) => title@,
        None => Seq::empty(),
    }) + suffix_text() + seq!['\n']));
    write_rows(f, &group.rows, column_width);
    assert(final(f)@ =~= old(f)@ + group_text(*group, column_width@));
}

impl Table {
    /// The table as text for a terminal that is `terminal_width` characters wide.
    pub fn render(&self, terminal_width: usize) -> (r: String)
        requires
            self.columns@.len() <= terminal_width,
        ensures
            r@ == table_text(*self, terminal_width),
    {
        let column_width = self.get_column_width(terminal_width - self.columns.len());
        let ghost widths = column_width@;

        let mut labels: Vec<String> = Vec::new();
        let mut c: usize = 0;
        while c < self.columns.len()
            invariant
                c <= self.columns.len(),
                labels@.len() == c,
                forall|k: int| 0 <= k < c ==> (#[trigger] labels@[k])@ == self.columns@[k].label@,
            decreases self.columns.len() - c,
        {
            labels.push(self.columns[c].label.clone());
            c += 1;
        }
        assert(texts(labels@) =~= label_texts(*self));

        let mut f = String::new();
        write_cells(&mut f, &labels, &column_width, Some(TextStyle::Underline));
        f.push('\n');
        write_rows(&mut f, &self.rows, &column_width);
        let ghost head = f@;
        assert(head =~= cells_text(label_texts(*self), widths, Some(TextStyle::Underline))
            + seq!['\n'] + rows_text(self.rows@, widths));

        let mut g: usize = 0;
        assert(self.groups@.take(0) =~= Seq::<Group>::empty());
        assert(f@ =~= head + groups_text(self.groups@.take(0), widths));
        while g < self.groups.len()
            invariant
                g <= self.groups.len(),
                widths == column_width@,
                f@ == head + groups_text(self.groups@.take(g as int), widths),
            decreases self.groups.len() - g,
        {
            proof {
                assert(self.groups@.take(g + 1).drop_last() =~= self.groups@.take(g as int));
                assert(self.groups@.take(g + 1).last() == self.groups@[g as int]);
            }
            write_group(&mut f, &self.groups[g], &column_width);
            g += 1;
            assert(f@ =~= head + groups_text(self.groups@.take(g as int), widths));
        }
        assert(self.groups@.take(g as int) =~= self.groups@);
        f
    }

    /// The table as text for a terminal that tells the width of its lines,
    /// or tells none: what `table_shown` says.
    pub fn render_on(&self, terminal: Option<usize>) -> (r: Option<String>)
        ensures
            is_text(r, table_shown(*self, terminal)),
    {
        let width = match terminal {
            Some(width) => width,
            None => DEFAULT_WIDTH,
        };
        if self.columns.len() <= width {
            Some(self.render(width))
        } else {
            None
        }
    }

    /// The table as text for the terminal that the output goes to, or for
    /// a terminal without bounds where it goes elsewhere: what
    /// `table_shown` says for what the terminal tells. There is no text
    /// where the terminal has fewer characters to a line than the table
    /// has columns, so a table without columns always has one.
    pub fn to_string(&self) -> (r: Option<String>)
        ensures
            exists|terminal: Option<usize>| is_text(r, #[trigger] table_shown(*self, terminal)),
            self.columns@.len() == 0 ==> r is Some,
    {
        let terminal = terminal_width();
        let text = self.render_on(terminal);
        assert(is_text(text, table_shown(*self, terminal)));
        text
    }
}

} // verus!
