//! Tables of texts, and the widths of their columns.
use vstd::prelude::*;
use vstd::string::StrSliceExecFns;

verus! {

/// Whether the texts of a column may be broken into several lines.
#[derive(Debug, Clone, Copy, PartialEq, Eq, Structural)]
pub enum Wrap {
    Wrap,
    NoWrap,
}

/// A column of a table.
#[derive(Debug)]
pub struct Column {
    pub label: String,
    pub wrap: Wrap,
}

/// The colour in which a row is shown.
#[derive(Debug, Clone, Copy, PartialEq, Eq, Structural)]
pub enum Color {
    Green,
    Yellow,
}

/// A row of a table: one text for each column.
#[derive(Debug)]
pub struct Row {
    pub content: Vec<String>,
    pub style: Option<Color>,
}

/// Some rows under a title of their own.
#[derive(Debug)]
pub struct Group {
    pub title: Option<String>,
    pub rows: Vec<Row>,
}

/// A table: its columns, its rows, and its groups of rows.
#[derive(Debug)]
pub struct Table {
    pub columns: Vec<Column>,
    pub rows: Vec<Row>,
    pub groups: Vec<Group>,
}

impl Row {
    /// A row without a colour.
    pub fn new(content: Vec<String>) -> (r: Row)
        ensures
            r.content == content,
            r.style is None,
    {
        Row { content, style: None }
    }

    /// Gives the row a colour.
    pub fn set_color(&mut self, style: Color)
        ensures
            final(self).style == Some(style),
            final(self).content == old(self).content,
    {
        self.style = Some(style);
    }
}

impl Group {
    /// A group of rows under a title.
    pub fn new(title: Option<String>, rows: Vec<Row>) -> (r: Group)
        ensures
            r.title == title,
            r.rows == rows,
    {
        Group { title, rows }
    }
}

/// The rows of some groups, group after group.
pub open spec fn rows_of_groups(groups: Seq<Group>) -> Seq<Row>
    decreases groups.len(),
{
    if groups.len() == 0 {
        Seq::empty()
    } else {
        rows_of_groups(groups.drop_last()) + groups.last().rows@
    }
}

/// The width that the first `cells` texts of a row ask of the columns
/// whose widths so far are `widths`: the wider of the two for each column
/// that the row has a text for, and a new column for each text beyond them.
pub open spec fn widened_by_cells(widths: Seq<usize>, content: Seq<String>, cells: int) -> Seq<usize>
    decreases cells,
{
    if cells <= 0 {
        widths
    } else {
        let before = widened_by_cells(widths, content, cells - 1);
        let cell = content[cells - 1]@.len() as usize;
        if cells - 1 < before.len() {
            before.update(
                cells - 1,
                if cell > before[cells - 1] {
                    cell
                } else {
                    before[cells - 1]
                },
            )
        } else {
            before.push(cell)
        }
    }
}

/// The widths that some rows ask of the columns, beginning with `widths`.
pub open spec fn widened_by_rows(widths: Seq<usize>, rows: Seq<Row>) -> Seq<usize>
    decreases rows.len(),
{
    if rows.len() == 0 {
        widths
    } else {
        let before = widened_by_rows(widths, rows.drop_last());
        widened_by_cells(before, rows.last().content@, rows.last().content@.len() as int)
    }
}

/// The widths of the labels of some columns.
pub open spec fn label_widths(columns: Seq<Column>) -> Seq<usize> {
    Seq::new(columns.len(), |i: int| columns[i].label@.len() as usize)
}

impl Table {
    /// A table with the given columns and no rows.
    pub fn new(columns: Vec<Column>) -> (r: Table)
        ensures
            r.columns == columns,
            r.rows@.len() == 0,
            r.groups@.len() == 0,
    {
        Table { columns, groups: Vec::new(), rows: Vec::new() }
    }

    /// Puts a row behind the rows of the table.
    pub fn add_row(&mut self, row: Row)
        ensures
            final(self).rows@ == old(self).rows@.push(row),
            final(self).columns == old(self).columns,
            final(self).groups == old(self).groups,
    {
        self.rows.push(row);
    }

    /// Puts a group behind the groups of the table.
    pub fn add_group(&mut self, group: Group)
        ensures
            final(self).groups@ == old(self).groups@.push(group),
            final(self).columns == old(self).columns,
            final(self).rows == old(self).rows,
    {
        self.groups.push(group);
    }

    /// All rows of the table: those of its groups first, then its own.
    pub open spec fn all_rows(&self) -> Seq<Row> {
        rows_of_groups(self.groups@) + self.rows@
    }

    /// All rows of the table: those of its groups first, then its own.
    pub fn get_all_rows(&self) -> (r: Vec<&Row>)
        ensures
            r@.len() == self.all_rows().len(),
            forall|i: int| 0 <= i < r@.len() ==> *(#[trigger] r@[i]) == self.all_rows()[i],
    {
        let mut all: Vec<&Row> = Vec::new();
        let mut g: usize = 0;
        assert(self.groups@.take(0) =~= Seq::<Group>::empty());
        while g < self.groups.len()
            invariant
                g <= self.groups.len(),
                all@.len() == rows_of_groups(self.groups@.take(g as int)).len(),
                forall|i: int|
                    0 <= i < all@.len() ==> *(#[trigger] all@[i]) == rows_of_groups(
                        self.groups@.take(g as int),
                    )[i],
            decreases self.groups.len() - g,
        {
            let group = &self.groups[g];
            let ghost before = rows_of_groups(self.groups@.take(g as int));
            proof {
                let next = self.groups@.take(g + 1);
                assert(next.drop_last() =~= self.groups@.take(g as int));
                assert(next.last() == *group);
            }
            let mut k: usize = 0;
            while k < group.rows.len()
                invariant
                    k <= group.rows.len(),
                    all@.len() == before.len() + k,
                    forall|i: int|
                        0 <= i < all@.len() ==> *(#[trigger] all@[i]) == (before
                            + group.rows@)[i],
                decreases group.rows.len() - k,
            {
                all.push(&group.rows[k]);
                k += 1;
            }
            g += 1;
        }
        assert(self.groups@.take(g as int) =~= self.groups@);
        let ghost grouped = rows_of_groups(self.groups@);
        let mut k: usize = 0;
        while k < self.rows.len()
            invariant
                k <= self.rows.len(),
                grouped == rows_of_groups(self.groups@),
                all@.len() == grouped.len() + k,
                forall|i: int|
                    0 <= i < all@.len() ==> *(#[trigger] all@[i]) == (grouped + self.rows@)[i],
            decreases self.rows.len() - k,
        {
            all.push(&self.rows[k]);
            k += 1;
        }
        all
    }

    /// The widest text of each column: that of its label or of a row. A
    /// row that has more texts than the table has columns adds columns.
    pub open spec fn max_column_width(&self) -> Seq<usize> {
        widened_by_rows(label_widths(self.columns@), self.all_rows())
    }

    /// The widest text of each column, counted in characters.
    pub fn get_max_column_width(&self) -> (r: Vec<usize>)
        ensures
            r@ == self.max_column_width(),
    {
        let mut max_column_width: Vec<usize> = Vec::new();
        let mut c: usize = 0;
        while c < self.columns.len()
            invariant
                c <= self.columns.len(),
                max_column_width@.len() == c,
                forall|i: int|
                    0 <= i < c ==> #[trigger] max_column_width@[i]
                        == self.columns@[i].label@.len() as usize,
            decreases self.columns.len() - c,
        {
            max_column_width.push(self.columns[c].label.as_str().unicode_len());
            c += 1;
        }
        assert(max_column_width@ =~= label_widths(self.columns@));
        let rows = self.get_all_rows();
        let ghost all = self.all_rows();
        let mut r: usize = 0;
        assert(all.take(0) =~= Seq::<Row>::empty());
        while r < rows.len()
            invariant
                r <= rows.len(),
                all == self.all_rows(),
                rows@.len() == all.len(),
                forall|i: int| 0 <= i < rows@.len() ==> *(#[trigger] rows@[i]) == all[i],
                max_column_width@ == widened_by_rows(
                    label_widths(self.columns@),
                    all.take(r as int),
                ),
            decreases rows.len() - r,
        {
            let row = rows[r];
            let ghost before = max_column_width@;
            proof {
                let next = all.take(r + 1);
                assert(next.drop_last() =~= all.take(r as int));
                assert(next.last() == *row);
            }
            let mut i: usize = 0;
            while i < row.content.len()
                invariant
                    i <= row.content.len(),
                    max_column_width@ == widened_by_cells(before, row.content@, i as int),
                decreases row.content.len() - i,
            {
                let char_count = row.content[i].as_str().unicode_len();
                if i < max_column_width.len() {
                    let old_w = max_column_width[i];
                    max_column_width[i] = if char_count > old_w {
                        char_count
                    } else {
                        old_w
                    };
                } else {
                    max_column_width.push(char_count);
                }
                i += 1;
            }
            r += 1;
        }
        assert(all.take(r as int) =~= all);
        max_column_width
    }
}

/// The sum of some widths.
pub open spec fn total(widths: Seq<usize>) -> int
    decreases widths.len(),
{
    if widths.len() == 0 {
        0
    } else {
        total(widths.drop_last()) + widths.last()
    }
}

/// The sum of the widths of the columns that may not be wrapped.
pub open spec fn fixed_total(widths: Seq<usize>, wraps: Seq<Wrap>) -> int
    decreases wraps.len(),
{
    if wraps.len() == 0 {
        0
    } else {
        let i = wraps.len() - 1;
        fixed_total(widths, wraps.drop_last()) + if wraps.last() == Wrap::NoWrap && i
            < widths.len() {
            widths[i] as int
        } else {
            0
        }
    }
}

/// How many columns may be wrapped.
pub open spec fn wrap_count(wraps: Seq<Wrap>) -> int
    decreases wraps.len(),
{
    if wraps.len() == 0 {
        0
    } else {
        wrap_count(wraps.drop_last()) + if wraps.last() == Wrap::Wrap {
            1int
        } else {
            0int
        }
    }
}

/// The widths with which the sharing begins: a column that may not be
/// wrapped has its full width, a column that may be wrapped has none.
pub open spec fn start_widths(maxes: Seq<usize>, wraps: Seq<Wrap>) -> Seq<usize> {
    Seq::new(
        wraps.len(),
        |i: int|
            if wraps[i] == Wrap::NoWrap {
                maxes[i]
            } else {
                0
            },
    )
}

/// The state of the sharing of width among the columns that may be
/// wrapped: the widths so far, the width that is left to give out, and the
/// number of columns that still take some.
pub struct Sharing {
    pub widths: Seq<usize>,
    pub available: int,
    pub open: int,
}

/// Whether column `i` takes part in the sharing: it may be wrapped and has
/// not got its full width yet.
pub open spec fn takes_more(widths: Seq<usize>, maxes: Seq<usize>, wraps: Seq<Wrap>, i: int) -> bool {
    wraps[i] == Wrap::Wrap && widths[i] < maxes[i]
}

/// One column's turn in a round: it gets `additional` width, or what it
/// lacks of its full width if that is no more. A column that has got its
/// full width takes no further part.
pub open spec fn share_column(
    s: Sharing,
    maxes: Seq<usize>,
    wraps: Seq<Wrap>,
    additional: int,
    i: int,
) -> Sharing {
    if s.available > 0 && takes_more(s.widths, maxes, wraps, i) {
        if maxes[i] > s.widths[i] + additional {
            Sharing {
                widths: s.widths.update(i, (s.widths[i] + additional) as usize),
                available: s.available - additional,
                open: s.open,
            }
        } else {
            Sharing {
                widths: s.widths.update(i, maxes[i]),
                available: s.available - (maxes[i] - s.widths[i]),
                open: s.open - 1,
            }
        }
    } else {
        s
    }
}

/// The turns of the first `upto` columns in a round.
pub open spec fn share_round(
    s: Sharing,
    maxes: Seq<usize>,
    wraps: Seq<Wrap>,
    additional: int,
    upto: int,
) -> Sharing
    decreases upto,
{
    if upto <= 0 {
        s
    } else {
        share_column(share_round(s, maxes, wraps, additional, upto - 1), maxes, wraps, additional, upto - 1)
    }
}

/// What each column gets in a round: an equal share of the width that is
/// left, and one at least.
pub open spec fn share(available: int, open: int) -> int {
    if available / open >= 1 {
        available / open
    } else {
        1
    }
}

/// The widths after the width that is left has been shared out: round by
/// round, until nothing is left, no column takes more, or a round gives
/// nothing out.
pub open spec fn distributed(s: Sharing, maxes: Seq<usize>, wraps: Seq<Wrap>) -> Seq<usize>
    decreases s.available,
{
    if s.available > 0 && s.open > 0 {
        let next = share_round(s, maxes, wraps, share(s.available, s.open), wraps.len() as int);
        if 0 <= next.available < s.available {
            distributed(next, maxes, wraps)
        } else {
            next.widths
        }
    } else {
        s.widths
    }
}

/// The widths of the columns of a table that is to be no wider than
/// `max_width`, given the widest text of each column.
///
/// Where the table is no wider than that anyway, no column may be wrapped,
/// or the columns that may not be wrapped are too wide by themselves, each
/// column is as wide as its widest text. Else the columns that may not be
/// wrapped are, and the width that is left is shared among the others.
pub open spec fn column_widths(maxes: Seq<usize>, wraps: Seq<Wrap>, max_width: usize) -> Seq<usize> {
    if total(maxes) <= max_width || wrap_count(wraps) == 0 || fixed_total(maxes, wraps)
        > max_width {
        maxes
    } else {
        distributed(
            Sharing {
                widths: start_widths(maxes, wraps),
                available: max_width - fixed_total(maxes, wraps),
                open: wrap_count(wraps),
            },
            maxes,
            wraps,
        )
    }
}

/// How many of the columns from `from` on take part in the sharing.
pub open spec fn open_from(widths: Seq<usize>, maxes: Seq<usize>, wraps: Seq<Wrap>, from: int) -> int
    decreases wraps.len() - from,
{
    if from < 0 || from >= wraps.len() {
        0
    } else {
        open_from(widths, maxes, wraps, from + 1) + if takes_more(widths, maxes, wraps, from) {
            1int
        } else {
            0int
        }
    }
}

/// The width of a column behind `from` does not count among the columns from `from` on.
pub proof fn lemma_open_from_update(
    widths: Seq<usize>,
    maxes: Seq<usize>,
    wraps: Seq<Wrap>,
    from: int,
    i: int,
    width: usize,
)
    requires
        0 <= i < from,
        wraps.len() <= widths.len(),
    ensures
        open_from(widths.update(i, width), maxes, wraps, from) == open_from(
            widths,
            maxes,
            wraps,
            from,
        ),
    decreases wraps.len() - from,
{
    if from < wraps.len() {
        lemma_open_from_update(widths, maxes, wraps, from + 1, i, width);
    }
}

/// No more columns take part in the sharing than may be wrapped.
pub proof fn lemma_open_from_bound(widths: Seq<usize>, maxes: Seq<usize>, wraps: Seq<Wrap>, from: int)
    requires
        0 <= from <= wraps.len(),
    ensures
        0 <= open_from(widths, maxes, wraps, from) <= wrap_count(wraps) - wrap_count(
            wraps.take(from),
        ),
    decreases wraps.len() - from,
{
    if from < wraps.len() {
        lemma_open_from_bound(widths, maxes, wraps, from + 1);
        assert(wraps.take(from + 1).drop_last() =~= wraps.take(from));
        assert(wraps.take(from + 1).last() == wraps[from]);
    } else {
        assert(wraps.take(from) =~= wraps);
    }
}

/// The sum of some widths when one of them changes.
pub proof fn lemma_total_update(widths: Seq<usize>, i: int, width: usize)
    requires
        0 <= i < widths.len(),
    ensures
        total(widths.update(i, width)) == total(widths) - widths[i] + width,
    decreases widths.len(),
{
    let changed = widths.update(i, width);
    if i == widths.len() - 1 {
        assert(changed.drop_last() =~= widths.drop_last());
    } else {
        assert(changed.drop_last() =~= widths.drop_last().update(i, width));
        lemma_total_update(widths.drop_last(), i, width);
    }
}

/// The columns begin with the widths of those that may not be wrapped.
pub proof fn lemma_start_total(maxes: Seq<usize>, wraps: Seq<Wrap>, upto: int)
    requires
        0 <= upto <= wraps.len() <= maxes.len(),
    ensures
        total(start_widths(maxes, wraps).take(upto)) == fixed_total(maxes, wraps.take(upto)),
    decreases upto,
{
    let start = start_widths(maxes, wraps);
    if upto > 0 {
        lemma_start_total(maxes, wraps, upto - 1);
        assert(start.take(upto).drop_last() =~= start.take(upto - 1));
        assert(wraps.take(upto).drop_last() =~= wraps.take(upto - 1));
    }
}

/// The sum of some widths is no less than the sum of the first of them.
pub proof fn lemma_total_take(widths: Seq<usize>, upto: int)
    requires
        0 <= upto <= widths.len(),
    ensures
        0 <= total(widths.take(upto)) <= total(widths),
    decreases widths.len(),
{
    if upto == widths.len() {
        assert(widths.take(upto) =~= widths);
        if upto > 0 {
            lemma_total_take(widths.drop_last(), upto - 1);
            assert(widths.drop_last().take(upto - 1) =~= widths.drop_last());
        }
    } else {
        lemma_total_take(widths.drop_last(), upto);
        assert(widths.drop_last().take(upto) =~= widths.take(upto));
    }
}

/// The sum of the first `upto` widths, if it is no more than `limit`.
pub fn total_within(widths: &Vec<usize>, upto: usize, limit: usize) -> (r: Option<usize>)
    requires
        upto <= widths.len(),
    ensures
        match r {
            Some(sum) => sum == total(widths@.take(upto as int)) && sum <= limit,
            None => total(widths@.take(upto as int)) > limit,
        },
{
    let mut sum: usize = 0;
    let mut i: usize = 0;
    assert(widths@.take(0) =~= Seq::<usize>::empty());
    while i < upto
        invariant
            i <= upto <= widths.len(),
            sum == total(widths@.take(i as int)),
            sum <= limit,
        decreases upto - i,
    {
        proof {
            assert(widths@.take(i + 1).drop_last() =~= widths@.take(i as int));
            assert(widths@.take(i + 1).last() == widths@[i as int]);
        }
        if widths[i] > limit - sum {
            proof {
                lemma_total_take(widths@.take(upto as int), i + 1);
                assert(widths@.take(upto as int).take(i + 1) =~= widths@.take(i + 1));
            }
            return None;
        }
        sum = sum + widths[i];
        i += 1;
    }
    Some(sum)
}

/// Whether the sharing stands as it should between the turns of two
/// columns: every width is within its full width, the columns that may not
/// be wrapped have theirs, what was given out and what is left make up the
/// width that there was to share, and no more columns take part than are
/// counted as open.
pub open spec fn sharing_holds(
    s: Sharing,
    maxes: Seq<usize>,
    wraps: Seq<Wrap>,
    max_width: int,
) -> bool {
    &&& s.widths.len() == wraps.len() <= maxes.len()
    &&& forall|i: int| 0 <= i < wraps.len() ==> (#[trigger] s.widths[i]) <= maxes[i]
    &&& forall|i: int|
        0 <= i < wraps.len() && wraps[i] == Wrap::NoWrap ==> (#[trigger] s.widths[i]) == maxes[i]
    &&& 0 <= s.available
    &&& total(s.widths) + s.available == max_width
    &&& 0 <= open_from(s.widths, maxes, wraps, 0) <= s.open
}

impl Table {
    /// Whether the columns of the table may be wrapped.
    pub open spec fn column_wraps(&self) -> Seq<Wrap> {
        Seq::new(self.columns@.len(), |i: int| self.columns@[i].wrap)
    }

    /// The widths of the columns of the table when it is to be no wider
    /// than `max_width`.
    ///
    /// If the widest line of the table is wider than that, the columns that
    /// may be wrapped shrink: the width that the other columns leave is
    /// shared out among them, in rounds of equal shares, and no column gets
    /// more than its widest text needs. Where the table is wrapped, its
    /// columns together are no wider than `max_width`, and exactly as wide
    /// unless a row has more texts than the table has columns.
    pub fn get_column_width(&self, max_width: usize) -> (r: Vec<usize>)
        ensures
            r@ == column_widths(self.max_column_width(), self.column_wraps(), max_width),
            r@ != self.max_column_width() ==> total(r@) <= max_width,
            r@ != self.max_column_width() && self.max_column_width().len()
                == self.columns@.len() ==> total(r@) == max_width,
    {
        let max_column_width = self.get_max_column_width();
        let ghost maxes = max_column_width@;
        let ghost wraps = self.column_wraps();
        proof {
            lemma_widened_by_rows(label_widths(self.columns@), self.all_rows());
        }
        let columns = self.columns.len();
        assert(maxes == self.max_column_width());

        let mut number_of_wrappable_columns: usize = 0;
        let mut c: usize = 0;
        assert(wraps.take(0) =~= Seq::<Wrap>::empty());
        while c < columns
            invariant
                c <= columns,
                columns == self.columns.len(),
                wraps == self.column_wraps(),
                number_of_wrappable_columns == wrap_count(wraps.take(c as int)),
                number_of_wrappable_columns <= c,
            decreases columns - c,
        {
            proof {
                assert(wraps.take(c + 1).drop_last() =~= wraps.take(c as int));
                assert(wraps.take(c + 1).last() == self.columns@[c as int].wrap);
            }
            if let Wrap::Wrap = self.columns[c].wrap {
                number_of_wrappable_columns += 1;
            }
            c += 1;
        }
        assert(wraps.take(c as int) =~= wraps);
        assert(maxes.take(maxes.len() as int) =~= maxes);

        if number_of_wrappable_columns == 0 {
            // we can not wrap
            return max_column_width;
        }
        if total_within(&max_column_width, max_column_width.len(), max_width).is_some() {
            // we do not need to wrap
            return max_column_width;
        }
        // the total width of the columns that we may not wrap, and the widths to begin with:
        // none for the columns that we may wrap
        let mut column_width: Vec<usize> = Vec::new();
        let mut unwrapable_width: usize = 0;
        let mut c: usize = 0;
        while c < columns
            invariant
                c <= columns,
                columns == self.columns.len() <= max_column_width.len(),
                wraps == self.column_wraps(),
                maxes == max_column_width@,
                maxes == self.max_column_width(),
                wrap_count(wraps) > 0,
                total(maxes) > max_width,
                column_width@ == start_widths(maxes, wraps).take(c as int),
                unwrapable_width == fixed_total(maxes, wraps.take(c as int)),
                unwrapable_width <= max_width,
            decreases columns - c,
        {
            proof {
                assert(wraps.take(c + 1).drop_last() =~= wraps.take(c as int));
                assert(wraps.take(c + 1).last() == self.columns@[c as int].wrap);
            }
            match self.columns[c].wrap {
                Wrap::NoWrap => {
                    if max_column_width[c] > max_width - unwrapable_width {
                        // in this case we can not get any decent layout with wrapping: we
                        // rather do not wrap at all
                        proof {
                            lemma_fixed_total_take(maxes, wraps, c + 1);
                            assert(fixed_total(maxes, wraps.take(c + 1)) == unwrapable_width
                                + maxes[c as int]);
                        }
                        return max_column_width;
                    }
                    unwrapable_width = unwrapable_width + max_column_width[c];
                    column_width.push(max_column_width[c]);
                },
                Wrap::Wrap => {
                    column_width.push(0);
                },
            }
            assert(column_width@ =~= start_widths(maxes, wraps).take(c + 1));
            c += 1;
        }
        assert(wraps.take(c as int) =~= wraps);
        assert(start_widths(maxes, wraps).take(c as int) =~= start_widths(maxes, wraps));

        // then we distribute the available width to the wrappable columns
        let mut available_width_for_wrappable_columns: usize = max_width - unwrapable_width;
        proof {
            lemma_start_total(maxes, wraps, columns as int);
            lemma_open_from_bound(column_width@, maxes, wraps, 0);
            assert(wraps.take(0) =~= Seq::<Wrap>::empty());
        }
        let ghost mut state = Sharing {
            widths: column_width@,
            available: available_width_for_wrappable_columns as int,
            open: number_of_wrappable_columns as int,
        };
        proof {
            if maxes.len() == wraps.len() {
                lemma_some_column_takes(state, maxes, wraps, max_width as int);
            }
        }
        while available_width_for_wrappable_columns > 0 && number_of_wrappable_columns > 0
            invariant_except_break
                distributed(state, maxes, wraps) == column_widths(maxes, wraps, max_width),
            invariant
                columns == self.columns.len(),
                wraps == self.column_wraps(),
                maxes == max_column_width@,
                state.widths == column_width@,
                state.available == available_width_for_wrappable_columns,
                state.open == number_of_wrappable_columns,
                sharing_holds(state, maxes, wraps, max_width as int),
                total(maxes) > max_width,
                maxes.len() == wraps.len() ==> open_from(state.widths, maxes, wraps, 0) >= 1,
            ensures
                column_width@ == column_widths(maxes, wraps, max_width),
                total(column_width@) <= max_width,
                maxes.len() == wraps.len() ==> total(column_width@) == max_width,
            decreases available_width_for_wrappable_columns,
        {
            // the additional width we give each column in this round, at most
            let equal_share = available_width_for_wrappable_columns / number_of_wrappable_columns;
            let additional_width_for_each: usize = if equal_share >= 1 {
                equal_share
            } else {
                1
            };
            let available_before = available_width_for_wrappable_columns;
            let ghost before = state;
            let ghost additional = share(before.available, before.open);
            assert(additional == additional_width_for_each);
            let ghost mut given: int = 0;
            let mut i: usize = 0;
            while i < columns
                invariant
                    i <= columns,
                    columns == self.columns.len(),
                    wraps == self.column_wraps(),
                    maxes == max_column_width@,
                    additional == additional_width_for_each,
                    additional >= 1,
                    additional == share(before.available, before.open),
                    before.available > 0,
                    before.open > 0,
                    state.widths == column_width@,
                    state.available == available_width_for_wrappable_columns,
                    state.open == number_of_wrappable_columns,
                    sharing_holds(state, maxes, wraps, max_width as int),
                    state == share_round(before, maxes, wraps, additional, i as int),
                    0 <= given,
                    given + open_from(state.widths, maxes, wraps, i as int) <= before.open,
                    state.available >= before.available - given * additional,
                    state.available <= before.available,
                    state.available == before.available ==> open_from(
                        state.widths,
                        maxes,
                        wraps,
                        0,
                    ) == open_from(state.widths, maxes, wraps, i as int),
                decreases columns - i,
            {
                let ghost here = state;
                proof {
                    assert(0 <= open_from(here.widths, maxes, wraps, i + 1)) by {
                        lemma_open_from_nonnegative(here.widths, maxes, wraps, i + 1);
                    }
                }
                let taking = match self.columns[i].wrap {
                    Wrap::Wrap => column_width[i] < max_column_width[i],
                    Wrap::NoWrap => false,
                };
                if available_width_for_wrappable_columns > 0 && taking {
                    proof {
                        assert(takes_more(here.widths, maxes, wraps, i as int));
                        // this column is one of those that were counted, so its share is there
                        assert(given + 1 <= before.open);
                        lemma_share_is_there(before.available, before.open, given, additional);
                    }
                    let width = column_width[i];
                    if max_column_width[i] - width > additional_width_for_each {
                        // while the maximum width for this column will not be reached, we
                        // add all the additional width
                        available_width_for_wrappable_columns -= additional_width_for_each;
                        column_width[i] = width + additional_width_for_each;
                        proof {
                            state = share_column(here, maxes, wraps, additional, i as int);
                            lemma_total_update(here.widths, i as int, column_width@[i as int]);
                            lemma_open_after_turn(here.widths, maxes, wraps, i as int, column_width@[i as int]);
                            lemma_open_from_update(here.widths, maxes, wraps, i + 1, i as int, column_width@[i as int]);
                            given = given + 1;
                            assert(state.available >= before.available - given * additional) by (nonlinear_arith)
                                requires
                                    here.available >= before.available - (given - 1) * additional,
                                    state.available == here.available - additional,
                            ;
                        }
                    } else {
                        // the column does not need all the additional width: we give it only
                        // the additional width it needs
                        available_width_for_wrappable_columns -= max_column_width[i] - width;
                        column_width[i] = max_column_width[i];
                        proof {
                            lemma_open_from_bound_one(here.widths, maxes, wraps, i as int);
                        }
                        // this column won't need any more width
                        number_of_wrappable_columns -= 1;
                        proof {
                            state = share_column(here, maxes, wraps, additional, i as int);
                            lemma_total_update(here.widths, i as int, column_width@[i as int]);
                            lemma_open_after_turn(here.widths, maxes, wraps, i as int, column_width@[i as int]);
                            lemma_open_from_update(here.widths, maxes, wraps, i + 1, i as int, column_width@[i as int]);
                            given = given + 1;
                            assert(state.available >= before.available - given * additional) by (nonlinear_arith)
                                requires
                                    here.available >= before.available - (given - 1) * additional,
                                    state.available >= here.available - additional,
                            ;
                        }
                    }
                } else {
                    proof {
                        assert(share_column(here, maxes, wraps, additional, i as int) == here);
                    }
                }
                i += 1;
            }
            proof {
                if maxes.len() == wraps.len() {
                    lemma_some_column_takes(state, maxes, wraps, max_width as int);
                }
            }
            if available_width_for_wrappable_columns == available_before {
                // nothing could be given out in this round, and nothing will be in another
                break ;
            }
        }
        column_width
    }
}

/// Where no column from `from` on is counted as taking part, none does.
pub proof fn lemma_no_column_takes(
    widths: Seq<usize>,
    maxes: Seq<usize>,
    wraps: Seq<Wrap>,
    from: int,
)
    requires
        0 <= from <= wraps.len(),
        open_from(widths, maxes, wraps, from) == 0,
    ensures
        forall|i: int| from <= i < wraps.len() ==> !takes_more(widths, maxes, wraps, i),
    decreases wraps.len() - from,
{
    if from < wraps.len() {
        lemma_open_from_nonnegative(widths, maxes, wraps, from + 1);
        lemma_no_column_takes(widths, maxes, wraps, from + 1);
    }
}

/// While the widest texts of the columns are wider together than the table
/// may be, some column that may be wrapped has not got its full width.
pub proof fn lemma_some_column_takes(s: Sharing, maxes: Seq<usize>, wraps: Seq<Wrap>, max_width: int)
    requires
        sharing_holds(s, maxes, wraps, max_width),
        total(maxes) > max_width,
        maxes.len() == wraps.len(),
    ensures
        open_from(s.widths, maxes, wraps, 0) >= 1,
{
    if open_from(s.widths, maxes, wraps, 0) == 0 {
        lemma_no_column_takes(s.widths, maxes, wraps, 0);
        assert forall|i: int| 0 <= i < wraps.len() implies s.widths[i] == maxes[i] by {
            assert(!takes_more(s.widths, maxes, wraps, i));
            assert(s.widths[i] <= maxes[i]);
            if wraps[i] == Wrap::NoWrap {
                assert(s.widths[i] == maxes[i]);
            }
        }
        assert(s.widths =~= maxes);
    }
}

/// The texts of a row leave every column at least as wide as it was, and
/// as wide as the text that the row has for it.
pub proof fn lemma_widened_by_cells(widths: Seq<usize>, content: Seq<String>, cells: int)
    requires
        0 <= cells <= content.len(),
    ensures
        widened_by_cells(widths, content, cells).len() >= widths.len(),
        widened_by_cells(widths, content, cells).len() >= cells,
        forall|i: int|
            0 <= i < widths.len() ==> #[trigger] widened_by_cells(widths, content, cells)[i]
                >= widths[i],
        forall|i: int|
            0 <= i < cells ==> #[trigger] widened_by_cells(widths, content, cells)[i]
                >= content[i]@.len() as usize,
    decreases cells,
{
    if cells > 0 {
        lemma_widened_by_cells(widths, content, cells - 1);
    }
}

/// The width of a text, as the machine counts it.
pub open spec fn width_of(text: String) -> usize {
    text@.len() as usize
}

/// Whether text `i` of a row has a column that is wide enough for it.
pub open spec fn has_room_for(widths: Seq<usize>, row: Row, i: int) -> bool {
    i < widths.len() && widths[i] >= width_of(row.content@[i])
}

/// Whether every text of a row has a column that is wide enough for it.
pub open spec fn has_room(widths: Seq<usize>, row: Row) -> bool {
    forall|i: int| 0 <= i < row.content@.len() ==> #[trigger] has_room_for(widths, row, i)
}

/// Columns that have room for a row still have when they grow.
pub proof fn lemma_room_stays(widths: Seq<usize>, wider: Seq<usize>, row: Row)
    requires
        has_room(widths, row),
        wider.len() >= widths.len(),
        forall|i: int| 0 <= i < widths.len() ==> #[trigger] wider[i] >= widths[i],
    ensures
        has_room(wider, row),
{
    assert forall|i: int| 0 <= i < row.content@.len() implies #[trigger] has_room_for(
        wider,
        row,
        i,
    ) by {
        assert(has_room_for(widths, row, i));
        assert(wider[i] >= widths[i]);
    }
}

/// The widest text of each column is no narrower than what the column
/// began with, and every text of every row has a column that is wide
/// enough for it.
pub proof fn lemma_widened_by_rows(widths: Seq<usize>, rows: Seq<Row>)
    ensures
        widened_by_rows(widths, rows).len() >= widths.len(),
        forall|i: int|
            0 <= i < widths.len() ==> #[trigger] widened_by_rows(widths, rows)[i] >= widths[i],
        forall|r: int|
            0 <= r < rows.len() ==> has_room(widened_by_rows(widths, rows), #[trigger] rows[r]),
    decreases rows.len(),
{
    if rows.len() > 0 {
        let shorter = rows.drop_last();
        let before = widened_by_rows(widths, shorter);
        let last = rows.last();
        lemma_widened_by_rows(widths, shorter);
        lemma_widened_by_cells(before, last.content@, last.content@.len() as int);
        let after = widened_by_rows(widths, rows);
        assert(after == widened_by_cells(before, last.content@, last.content@.len() as int));
        assert forall|i: int| 0 <= i < widths.len() implies #[trigger] after[i] >= widths[i] by {
            assert(before[i] >= widths[i]);
            assert(after[i] >= before[i]);
        }
        assert forall|r: int| 0 <= r < rows.len() implies has_room(after, #[trigger] rows[r]) by {
            let row = rows[r];
            if r < shorter.len() {
                assert(shorter[r] == row);
                lemma_room_stays(before, after, row);
            } else {
                assert(row == last);
                assert forall|i: int| 0 <= i < row.content@.len() implies #[trigger] has_room_for(
                    after,
                    row,
                    i,
                ) by {
                    assert(after[i] >= last.content@[i]@.len() as usize);
                }
            }
        }
    }
}

/// The widths of the first columns that may not be wrapped are part of the
/// widths of all of them.
pub proof fn lemma_fixed_total_take(maxes: Seq<usize>, wraps: Seq<Wrap>, upto: int)
    requires
        0 <= upto <= wraps.len(),
    ensures
        0 <= fixed_total(maxes, wraps.take(upto)) <= fixed_total(maxes, wraps),
    decreases wraps.len(),
{
    if upto == wraps.len() {
        assert(wraps.take(upto) =~= wraps);
        if upto > 0 {
            lemma_fixed_total_take(maxes, wraps.drop_last(), upto - 1);
            assert(wraps.drop_last().take(upto - 1) =~= wraps.drop_last());
        }
    } else {
        lemma_fixed_total_take(maxes, wraps.drop_last(), upto);
        assert(wraps.drop_last().take(upto) =~= wraps.take(upto));
    }
}

/// The count of the columns that take part is never negative.
pub proof fn lemma_open_from_nonnegative(
    widths: Seq<usize>,
    maxes: Seq<usize>,
    wraps: Seq<Wrap>,
    from: int,
)
    ensures
        0 <= open_from(widths, maxes, wraps, from),
    decreases wraps.len() - from,
{
    if 0 <= from < wraps.len() {
        lemma_open_from_nonnegative(widths, maxes, wraps, from + 1);
    }
}

/// A column that takes part in the sharing is one of those counted from the first on.
pub proof fn lemma_open_from_bound_one(widths: Seq<usize>, maxes: Seq<usize>, wraps: Seq<Wrap>, i: int)
    requires
        0 <= i < wraps.len(),
        takes_more(widths, maxes, wraps, i),
    ensures
        open_from(widths, maxes, wraps, 0) >= 1,
{
    lemma_open_from_split(widths, maxes, wraps, 0, i);
    lemma_open_from_nonnegative(widths, maxes, wraps, i + 1);
}

/// The columns counted from `from` on are at least those counted from a later column on.
pub proof fn lemma_open_from_split(
    widths: Seq<usize>,
    maxes: Seq<usize>,
    wraps: Seq<Wrap>,
    from: int,
    later: int,
)
    requires
        0 <= from <= later <= wraps.len(),
    ensures
        open_from(widths, maxes, wraps, from) >= open_from(widths, maxes, wraps, later),
    decreases later - from,
{
    if from < later {
        lemma_open_from_split(widths, maxes, wraps, from + 1, later);
    }
}

/// What becomes of the count of the columns that take part when column `i`
/// has had its turn and has the width `width` now: it is one less if the
/// column took part and has its full width now, and the same otherwise.
pub proof fn lemma_open_after_turn(
    widths: Seq<usize>,
    maxes: Seq<usize>,
    wraps: Seq<Wrap>,
    i: int,
    width: usize,
)
    requires
        0 <= i < wraps.len(),
        wraps.len() <= widths.len(),
    ensures
        open_from(widths.update(i, width), maxes, wraps, 0) == open_from(widths, maxes, wraps, 0)
            - (if takes_more(widths, maxes, wraps, i) {
            1int
        } else {
            0int
        }) + (if takes_more(widths.update(i, width), maxes, wraps, i) {
            1int
        } else {
            0int
        }),
{
    lemma_open_after_turn_from(widths, maxes, wraps, i, width, 0);
}

/// What becomes of the count from `from` on when column `i`, which is not
/// before `from`, has had its turn.
pub proof fn lemma_open_after_turn_from(
    widths: Seq<usize>,
    maxes: Seq<usize>,
    wraps: Seq<Wrap>,
    i: int,
    width: usize,
    from: int,
)
    requires
        0 <= from <= i < wraps.len(),
        wraps.len() <= widths.len(),
    ensures
        open_from(widths.update(i, width), maxes, wraps, from) == open_from(
            widths,
            maxes,
            wraps,
            from,
        ) - (if takes_more(widths, maxes, wraps, i) {
            1int
        } else {
            0int
        }) + (if takes_more(widths.update(i, width), maxes, wraps, i) {
            1int
        } else {
            0int
        }),
    decreases i - from,
{
    if from < i {
        lemma_open_after_turn_from(widths, maxes, wraps, i, width, from + 1);
    } else {
        lemma_open_from_update(widths, maxes, wraps, i + 1, i, width);
    }
}

/// While fewer columns have had a share than were counted at the beginning
/// of the round, a whole share is left.
pub proof fn lemma_share_is_there(available: int, open: int, given: int, additional: int)
    requires
        available > 0,
        open > 0,
        0 <= given < open,
        additional == share(available, open),
    ensures
        available / open >= 1 ==> available - given * additional >= additional,
{
    if available / open >= 1 {
        assert(additional * open <= available) by (nonlinear_arith)
            requires
                additional == available / open,
                open > 0,
        ;
        assert(available - given * additional >= additional) by (nonlinear_arith)
            requires
                additional * open <= available,
                0 <= given < open,
                additional >= 0,
        ;
    }
}

} // verus!
