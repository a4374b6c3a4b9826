//! The table of the current view: what is selected and what each cell
//! shows.

use vstd::prelude::*;
use vstd::string::StringSliceAdditionalSpecFns;
use vstd::utf8::encode_utf8;
use crate::io::dataframe::{
    all_columns,
    lemma_groups,
    DataFrame,
    DataFrameFilterView,
    DataFrameGroupView,
    MaterializedDataFrame,
};
use crate::io::columns::Column;
use crate::io::value::{display_text, ColumnValue, Datum};
use crate::ui::colorizer::{color_of, is_colorful, select, Colorizer};
use crate::ui::style::Color;

verus! {

/// Widest column that is laid out by its content.
pub const MAX_STRING_WIDTH: u16 = 32;

/// Width of the timeline column.
pub const TIMELINE_WIDTH: u16 = 32;

/// The view that a table shows: the groups of a store or a subset of its
/// rows.
pub enum TableData<'a> {
    Grouped(DataFrameGroupView<'a>),
    Filtered(DataFrameFilterView<'a>),
}

impl<'a> TableData<'a> {
    /// The store that the view reads.
    pub open spec fn source(&self) -> MaterializedDataFrame {
        match self {
            TableData::Grouped(view) => view.source(),
            TableData::Filtered(view) => view.source(),
        }
    }

    /// The store row behind each row of the view: the representative of a
    /// group, or the row that a filter kept.
    pub open spec fn source_rows(&self) -> Seq<int> {
        match self {
            TableData::Grouped(view) => Seq::new(view.groups().len(), |g: int| view.groups()[g][0]),
            TableData::Filtered(view) => view.indices(),
        }
    }

    /// The store that the view reads.
    pub fn source_frame(&self) -> (df: &'a MaterializedDataFrame)
        ensures
            *df == self.source(),
    {
        match self {
            TableData::Grouped(view) => view.source_frame(),
            TableData::Filtered(view) => view.source_frame(),
        }
    }

    /// The store row behind row `index` of the view.
    pub fn source_index(&self, index: usize) -> (i: usize)
        requires
            DataFrame::wf(self),
            index < self.rows().len(),
        ensures
            i == self.source_rows()[index as int],
            i < self.source()@.height(),
    {
        match self {
            TableData::Grouped(view) => view.representative(index),
            TableData::Filtered(view) => view.source_index(index),
        }
    }

    /// What the invariant says of the store and the rows behind the view.
    pub proof fn lemma_wf(&self)
        requires
            DataFrame::wf(self),
        ensures
            self.source().wf(),
            all_columns(self.source()@, self.names()),
            self.source_rows().len() == self.rows().len(),
            self.rows().len() == self.raws().len(),
            forall|k: int|
                0 <= k < self.source_rows().len() ==> 0 <= (#[trigger] self.source_rows()[k])
                    < self.source()@.height(),
            forall|k: int|
                0 <= k < self.rows().len() ==> #[trigger] self.rows()[k] == self.source()@.row(
                    self.source_rows()[k],
                ),
            forall|k: int|
                0 <= k < self.rows().len() ==> #[trigger] self.raws()[k]
                    == self.source()@.raw[self.source_rows()[k]],
    {
        match self {
            TableData::Grouped(view) => {
                lemma_groups(view.source()@, view.key_names(), view.source()@.height());
                assert forall|k: int| 0 <= k < self.names().len() implies self.source()@.has_column(
                    #[trigger] self.names()[k],
                ) by {
                    if k < view.key_names().len() {
                        assert(self.names()[k] == view.key_names()[k]);
                    } else {
                        assert(self.names()[k] == view.extra_names()[k - view.key_names().len()]);
                    }
                }
            },
            TableData::Filtered(view) => {
                assert forall|k: int| 0 <= k < self.names().len() implies self.source()@.has_column(
                    #[trigger] self.names()[k],
                ) by {
                    assert(self.source()@.names[k] == self.names()[k]);
                }
            },
        }
    }

    /// The cell of row `index` in the column called `name`.
    pub fn get(&self, name: &str, index: usize) -> (value: &ColumnValue)
        requires
            DataFrame::wf(self),
            self.source()@.has_column(name@),
            index < self.rows().len(),
        ensures
            value@ == self.source()@.cell(name@, self.source_rows()[index as int]),
    {
        match self {
            TableData::Grouped(view) => view.get(name, index),
            TableData::Filtered(view) => view.get(name, index),
        }
    }
}

impl<'a> DataFrame for TableData<'a> {
    open spec fn wf(&self) -> bool {
        match self {
            TableData::Grouped(view) => view.wf(),
            TableData::Filtered(view) => view.wf(),
        }
    }

    open spec fn rows(&self) -> Seq<Seq<Datum>> {
        match self {
            TableData::Grouped(view) => view.rows(),
            TableData::Filtered(view) => view.rows(),
        }
    }

    open spec fn names(&self) -> Seq<Seq<char>> {
        match self {
            TableData::Grouped(view) => view.names(),
            TableData::Filtered(view) => view.names(),
        }
    }

    open spec fn raws(&self) -> Seq<Seq<char>> {
        match self {
            TableData::Grouped(view) => view.raws(),
            TableData::Filtered(view) => view.raws(),
        }
    }

    fn len(&self) -> (n: usize) {
        match self {
            TableData::Grouped(view) => view.len(),
            TableData::Filtered(view) => view.len(),
        }
    }

    fn column_names(&self) -> (names: Vec<&String>) {
        match self {
            TableData::Grouped(view) => view.column_names(),
            TableData::Filtered(view) => view.column_names(),
        }
    }

    fn row(&self, index: usize) -> (cells: Vec<ColumnValue>) {
        match self {
            TableData::Grouped(view) => view.row(index),
            TableData::Filtered(view) => view.row(index),
        }
    }

    fn raw(&self, index: usize) -> (text: &String) {
        match self {
            TableData::Grouped(view) => view.raw(index),
            TableData::Filtered(view) => view.raw(index),
        }
    }
}

/// The selection after a move from `selected` in a view of `len` rows: one
/// row up or down, wrapping at the ends.
pub open spec fn moved(selected: int, len: int, up: bool) -> int {
    (selected + (if up {
        len - 1
    } else {
        1
    })) % len
}

/// A view with its selected row and, where it has one, the timeline of each
/// row.
pub struct ViewModel<'a> {
    pub df: TableData<'a>,
    pub selected: usize,
    pub timeline_column: Option<Vec<String>>,
}

impl<'a> ViewModel<'a> {
    /// The view is valid and not empty, a row of it is selected, and a
    /// timeline column has a text per row.
    pub open spec fn wf(&self) -> bool {
        &&& DataFrame::wf(&self.df)
        &&& self.df.rows().len() > 0
        &&& self.selected < self.df.rows().len()
        &&& self.timeline_column matches Some(texts) ==> texts.len() == self.df.rows().len()
    }

    /// A table over `df` with its first row selected.
    pub fn new(df: TableData<'a>, timeline_column: Option<Vec<String>>) -> (model: ViewModel<'a>)
        ensures
            model.df == df,
            model.timeline_column == timeline_column,
            model.selected == 0,
    {
        let mut model = ViewModel { df, timeline_column, selected: 0 };
        model.set_selected(0);
        model
    }

    /// Selects row `value`.
    pub fn set_selected(&mut self, value: usize)
        ensures
            final(self).selected == value,
            final(self).df == old(self).df,
            final(self).timeline_column == old(self).timeline_column,
    {
        self.selected = value;
    }

    /// Moves the selection one row up or down, wrapping at the ends.
    pub fn move_selected(&mut self, up: bool)
        requires
            old(self).wf(),
        ensures
            final(self).selected == moved(
                old(self).selected as int,
                old(self).df.rows().len() as int,
                up,
            ),
            final(self).df == old(self).df,
            final(self).timeline_column == old(self).timeline_column,
            final(self).wf(),
    {
        let len = self.df.len();
        let new_index = if up {
            if self.selected == 0 {
                len - 1
            } else {
                self.selected - 1
            }
        } else {
            if self.selected + 1 == len {
                0
            } else {
                self.selected + 1
            }
        };
        assert(new_index == moved(self.selected as int, len as int, up)) by {
            let s = self.selected as int;
            let n = len as int;
            if up {
                if s == 0 {
                    assert((n - 1) % n == n - 1) by (nonlinear_arith)
                        requires
                            n > 0,
                    ;
                } else {
                    assert((s + (n - 1)) % n == s - 1) by (nonlinear_arith)
                        requires
                            0 < s < n,
                    ;
                }
            } else {
                if s + 1 == n {
                    assert(n % n == 0) by (nonlinear_arith)
                        requires
                            n > 0,
                    ;
                } else {
                    assert((s + 1) % n == s + 1) by (nonlinear_arith)
                        requires
                            0 <= s,
                            s + 1 < n,
                    ;
                }
            }
        }
        self.set_selected(new_index);
    }

    /// The cells of the selected row in the view's columns.
    pub fn selected_row(&self) -> (cells: Vec<&ColumnValue>)
        requires
            self.wf(),
        ensures
            cells.len() == self.df.names().len(),
            forall|c: int|
                0 <= c < cells.len() ==> (#[trigger] cells[c])@ == self.df.source()@.cell(
                    self.df.names()[c],
                    self.df.source_rows()[self.selected as int],
                ),
    {
        proof {
            self.df.lemma_wf();
        }
        let names = self.df.column_names();
        let mut cells: Vec<&ColumnValue> = Vec::new();
        let mut c: usize = 0;
        while c < names.len()
            invariant
                c <= names.len(),
                self.wf(),
                names.len() == self.df.names().len(),
                forall|k: int| 0 <= k < names.len() ==> (#[trigger] names[k])@ == self.df.names()[k],
                all_columns(self.df.source()@, self.df.names()),
                cells.len() == c,
                forall|k: int|
                    0 <= k < c ==> (#[trigger] cells[k])@ == self.df.source()@.cell(
                        self.df.names()[k],
                        self.df.source_rows()[self.selected as int],
                    ),
            decreases names.len() - c,
        {
            assert(self.df.source()@.has_column(self.df.names()[c as int]));
            cells.push(self.df.get(names[c].as_str(), self.selected));
            c += 1;
        }
        cells
    }
}

/// The width that a value is given in layout: the bytes of a text, and a
/// fixed width for every other kind.
pub open spec fn value_width(value: Datum) -> nat {
    match value {
        Datum::Boolean(_) => 1,
        Datum::Absent => 1,
        Datum::Text(t) => encode_utf8(t).len(),
        Datum::Integer(_) => 16,
        Datum::Instant(_) => 12,
    }
}

/// The width that a value is given in layout: see [`value_width`].
pub fn get_column_value_width(value: &ColumnValue) -> (width: usize)
    ensures
        width == value_width(value@),
{
    match value {
        ColumnValue::Boolean(_) => 1,
        ColumnValue::Absent => 1,
        ColumnValue::String(s) => {
            let text = s.as_str();
            assert(text.spec_bytes() == encode_utf8(s@));
            text.as_bytes().len()
        },
        ColumnValue::Integer(_) => 16,
        ColumnValue::DateTime(_) => 12,
    }
}


/// How wide a column is laid out.
#[derive(Clone, Copy, Debug, PartialEq, Eq, Structural)]
pub enum Constraint {
    /// Exactly this wide.
    Length(u16),
    /// At least this wide.
    Min(u16),
}

/// One cell of the display: its text and, where it has one, its colour.
#[derive(Debug, PartialEq)]
pub struct Cell {
    pub text: String,
    pub color: Option<Color>,
}

/// The largest of `start` and the widths of the first `n` cells.
pub open spec fn widest(cells: Seq<Datum>, n: nat, start: nat) -> nat
    decreases n,
{
    if n == 0 {
        start
    } else {
        let rest = widest(cells, (n - 1) as nat, start);
        if value_width(cells[n - 1]) > rest {
            value_width(cells[n - 1])
        } else {
            rest
        }
    }
}

/// The layout of a column: as wide as its name and its widest cell where
/// that is less than [`MAX_STRING_WIDTH`], else at least that wide.
pub open spec fn column_constraint(name: Seq<char>, cells: Seq<Datum>) -> Constraint {
    let width = widest(cells, cells.len(), encode_utf8(name).len());
    if width < MAX_STRING_WIDTH {
        Constraint::Length(width as u16)
    } else {
        Constraint::Min(MAX_STRING_WIDTH)
    }
}

/// How the values of a column are coloured: see [`is_colorful`].
pub open spec fn colorizer_of(cells: Seq<Datum>) -> Colorizer {
    if is_colorful(cells) {
        Colorizer::Rgb
    } else {
        Colorizer::Static
    }
}

/// The display cell of a value of a column.
pub open spec fn shows(cell: Cell, cells: Seq<Datum>, value: Datum) -> bool {
    &&& cell.text@ == display_text(value)
    &&& cell.color == Some(color_of(colorizer_of(cells), value))
}

/// The layout of a column: see [`column_constraint`].
pub fn column_width(name: &str, column: &Column) -> (constraint: Constraint)
    ensures
        constraint == column_constraint(name@, column.values.deep_view()),
{
    let ghost cells = column.values.deep_view();
    assert(name.spec_bytes() == encode_utf8(name@));
    let mut max_len: usize = name.as_bytes().len();
    let mut i: usize = 0;
    while i < column.values.len()
        invariant
            i <= column.values.len(),
            cells == column.values.deep_view(),
            max_len == widest(cells, i as nat, encode_utf8(name@).len()),
        decreases column.values.len() - i,
    {
        assert(cells[i as int] == column.values[i as int]@);
        let width = get_column_value_width(&column.values[i]);
        if width > max_len {
            max_len = width;
        }
        i += 1;
    }
    if max_len < MAX_STRING_WIDTH as usize {
        Constraint::Length(max_len as u16)
    } else {
        Constraint::Min(MAX_STRING_WIDTH)
    }
}

/// What a table draws of its model.
pub struct TableView<'a, 'b> {
    view_model: &'b ViewModel<'a>,
}

impl<'a, 'b> TableView<'a, 'b> {
    /// The model that the view draws.
    pub closed spec fn model(&self) -> ViewModel<'a> {
        *self.view_model
    }

    pub fn new(view_model: &'b ViewModel<'a>) -> (view: TableView<'a, 'b>)
        ensures
            view.model() == *view_model,
    {
        TableView { view_model }
    }

    /// The names of the view's columns.
    pub fn get_column_names(&self) -> (names: Vec<&String>)
        requires
            self.model().wf(),
        ensures
            names.len() == self.model().df.names().len(),
            forall|c: int| 0 <= c < names.len() ==> (#[trigger] names[c])@ == self.model().df.names()[c],
    {
        self.view_model.df.column_names()
    }

    /// The header: the names of the view's columns.
    pub fn get_table_header(&self) -> (header: Vec<String>)
        requires
            self.model().wf(),
        ensures
            header.len() == self.model().df.names().len(),
            forall|c: int|
                0 <= c < header.len() ==> (#[trigger] header[c])@ == self.model().df.names()[c],
    {
        let names = self.get_column_names();
        let mut header: Vec<String> = Vec::new();
        let mut c: usize = 0;
        while c < names.len()
            invariant
                c <= names.len(),
                names.len() == self.model().df.names().len(),
                forall|k: int|
                    0 <= k < names.len() ==> (#[trigger] names[k])@ == self.model().df.names()[k],
                header.len() == c,
                forall|k: int| 0 <= k < c ==> (#[trigger] header[k])@ == self.model().df.names()[k],
            decreases names.len() - c,
        {
            header.push(names[c].clone());
            c += 1;
        }
        header
    }

    /// The layout of the columns: each of the view's columns by its name
    /// and all its cells in the store, then the timeline column, where
    /// there is one, with [`TIMELINE_WIDTH`].
    pub fn get_column_widths(&self) -> (widths: Vec<Constraint>)
        requires
            self.model().wf(),
        ensures
            widths.len() == self.model().df.names().len() + (if self.model().timeline_column is Some {
                1int
            } else {
                0int
            }),
            forall|c: int|
                0 <= c < self.model().df.names().len() ==> #[trigger] widths[c] == column_constraint(
                    self.model().df.names()[c],
                    self.model().df.source()@.cells[self.model().df.source()@.column_index(
                        self.model().df.names()[c],
                    )],
                ),
            self.model().timeline_column is Some ==> widths[self.model().df.names().len() as int]
                == Constraint::Length(TIMELINE_WIDTH),
    {
        proof {
            self.model().df.lemma_wf();
        }
        let source = self.view_model.df.source_frame();
        let names = self.get_column_names();
        let mut widths: Vec<Constraint> = Vec::new();
        let mut c: usize = 0;
        while c < names.len()
            invariant
                c <= names.len(),
                source.wf(),
                *source == self.model().df.source(),
                all_columns(source@, self.model().df.names()),
                names.len() == self.model().df.names().len(),
                forall|k: int|
                    0 <= k < names.len() ==> (#[trigger] names[k])@ == self.model().df.names()[k],
                widths.len() == c,
                forall|k: int|
                    0 <= k < c ==> #[trigger] widths[k] == column_constraint(
                        self.model().df.names()[k],
                        source@.cells[source@.column_index(self.model().df.names()[k])],
                    ),
            decreases names.len() - c,
        {
            assert(source@.has_column(self.model().df.names()[c as int]));
            match source.column(names[c].as_str()) {
                Some(column) => {
                    widths.push(column_width(names[c].as_str(), column));
                },
                None => {
                    widths = unreached();
                },
            }
            c += 1;
        }
        if self.view_model.timeline_column.is_some() {
            widths.push(Constraint::Length(TIMELINE_WIDTH));
        }
        widths
    }

    /// The cells of row `index`: one per column of the view, with the text
    /// and the colour of its value, then the row's timeline, where there is
    /// one, without a colour.
    pub fn get_row_contents(&self, index: usize, colorizers: &Vec<Colorizer>) -> (cells: Vec<Cell>)
        requires
            self.model().wf(),
            index < self.model().df.rows().len(),
            colorizers.len() == self.model().df.names().len(),
            forall|c: int|
                0 <= c < colorizers.len() ==> #[trigger] colorizers[c] == colorizer_of(
                    self.model().df.source()@.cells[self.model().df.source()@.column_index(
                        self.model().df.names()[c],
                    )],
                ),
        ensures
            row_shown(self.model(), index as int, cells@),
    {
        proof {
            self.model().df.lemma_wf();
        }
        let ghost frame = self.model().df.source()@;
        let ghost row = self.model().df.source_rows()[index as int];
        let names = self.get_column_names();
        let mut cells: Vec<Cell> = Vec::new();
        let mut c: usize = 0;
        while c < names.len()
            invariant
                c <= names.len(),
                self.model().wf(),
                index < self.model().df.rows().len(),
                frame == self.model().df.source()@,
                row == self.model().df.source_rows()[index as int],
                all_columns(frame, self.model().df.names()),
                names.len() == self.model().df.names().len(),
                forall|k: int|
                    0 <= k < names.len() ==> (#[trigger] names[k])@ == self.model().df.names()[k],
                colorizers.len() == names.len(),
                forall|k: int|
                    0 <= k < colorizers.len() ==> #[trigger] colorizers[k] == colorizer_of(
                        frame.cells[frame.column_index(self.model().df.names()[k])],
                    ),
                cells.len() == c,
                forall|k: int|
                    0 <= k < c ==> shows(
                        #[trigger] cells[k],
                        frame.cells[frame.column_index(self.model().df.names()[k])],
                        frame.cell(self.model().df.names()[k], row),
                    ),
            decreases names.len() - c,
        {
            assert(frame.has_column(self.model().df.names()[c as int]));
            let value = self.view_model.df.get(names[c].as_str(), index);
            cells.push(Cell { text: value.to_string(), color: Some(colorizers[c].apply(value)) });
            c += 1;
        }
        match &self.view_model.timeline_column {
            Some(texts) => {
                cells.push(Cell { text: texts[index].clone(), color: None });
            },
            None => {},
        }
        cells
    }

    /// How each column of the view is coloured, by all its cells in the
    /// store.
    pub fn get_colorizers(&self) -> (colorizers: Vec<Colorizer>)
        requires
            self.model().wf(),
        ensures
            colorizers.len() == self.model().df.names().len(),
            forall|c: int|
                0 <= c < colorizers.len() ==> #[trigger] colorizers[c] == colorizer_of(
                    self.model().df.source()@.cells[self.model().df.source()@.column_index(
                        self.model().df.names()[c],
                    )],
                ),
    {
        proof {
            self.model().df.lemma_wf();
        }
        let source = self.view_model.df.source_frame();
        let names = self.get_column_names();
        let mut colorizers: Vec<Colorizer> = Vec::new();
        let mut c: usize = 0;
        while c < names.len()
            invariant
                c <= names.len(),
                source.wf(),
                *source == self.model().df.source(),
                all_columns(source@, self.model().df.names()),
                names.len() == self.model().df.names().len(),
                forall|k: int|
                    0 <= k < names.len() ==> (#[trigger] names[k])@ == self.model().df.names()[k],
                colorizers.len() == c,
                forall|k: int|
                    0 <= k < c ==> #[trigger] colorizers[k] == colorizer_of(
                        source@.cells[source@.column_index(self.model().df.names()[k])],
                    ),
            decreases names.len() - c,
        {
            assert(source@.has_column(self.model().df.names()[c as int]));
            match source.column(names[c].as_str()) {
                Some(column) => {
                    colorizers.push(select(column));
                },
                None => {
                    colorizers = unreached();
                },
            }
            c += 1;
        }
        colorizers
    }

    /// The cells of the table, row by row: see [`row_shown`].
    pub fn get_table_contents(&self) -> (contents: Vec<Vec<Cell>>)
        requires
            self.model().wf(),
        ensures
            contents.len() == self.model().df.rows().len(),
            forall|i: int|
                0 <= i < contents.len() ==> row_shown(self.model(), i, (#[trigger] contents[i])@),
    {
        let colorizers = self.get_colorizers();
        let count = self.view_model.df.len();
        let mut contents: Vec<Vec<Cell>> = Vec::new();
        let mut i: usize = 0;
        while i < count
            invariant
                i <= count,
                count == self.model().df.rows().len(),
                self.model().wf(),
                colorizers.len() == self.model().df.names().len(),
                forall|c: int|
                    0 <= c < colorizers.len() ==> #[trigger] colorizers[c] == colorizer_of(
                        self.model().df.source()@.cells[self.model().df.source()@.column_index(
                            self.model().df.names()[c],
                        )],
                    ),
                contents.len() == i,
                forall|k: int| 0 <= k < i ==> row_shown(self.model(), k, (#[trigger] contents[k])@),
            decreases count - i,
        {
            contents.push(self.get_row_contents(i, &colorizers));
            i += 1;
        }
        contents
    }
}

/// `cells` are the display cells of row `index` of a table: one per column
/// of the view, with the text of the row's value there and the colour that
/// the column gives it, then the row's timeline, where the table has
/// timelines, without a colour.
pub open spec fn row_shown(model: ViewModel, index: int, cells: Seq<Cell>) -> bool {
    let frame = model.df.source()@;
    let names = model.df.names();
    let row = model.df.source_rows()[index];
    &&& cells.len() == names.len() + (if model.timeline_column is Some {
        1int
    } else {
        0int
    })
    &&& forall|c: int|
        0 <= c < names.len() ==> shows(
            #[trigger] cells[c],
            frame.cells[frame.column_index(names[c])],
            frame.cell(names[c], row),
        )
    &&& model.timeline_column matches Some(texts) ==> cells[names.len() as int].text@
        == texts[index]@ && cells[names.len() as int].color is None
}

} // verus!
