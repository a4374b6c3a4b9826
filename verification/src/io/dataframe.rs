//! The immutable column store and the read-only views over it.

use vstd::prelude::*;
use indexmap::IndexMap;
use crate::io::columns::{
    Column,
    column_entries,
    columns_get_index,
    columns_get_index_of,
    columns_len,
    group_slots,
    slots_get,
    slots_insert,
    slots_new,
};
use crate::io::select::{
    as_ints,
    indices_where,
    lemma_indices_where,
    lemma_indices_where_all,
    lemma_indices_where_none,
    lemma_indices_where_single,
};
use crate::io::value::{ColumnValue, Datum};
use crate::text::texts_of;

verus! {

/// What a store holds: its column names in declaration order, the cells of
/// each column, and the text of each record.
pub struct Frame {
    pub names: Seq<Seq<char>>,
    pub cells: Seq<Seq<Datum>>,
    pub raw: Seq<Seq<char>>,
}

impl Frame {
    /// Number of columns.
    pub open spec fn width(&self) -> nat {
        self.cells.len()
    }

    /// Number of rows.
    pub open spec fn height(&self) -> nat {
        self.raw.len()
    }

    /// At least one column, at least one row, every column and the raw
    /// records have the same length, and no two columns have the same name.
    pub open spec fn wf(&self) -> bool {
        &&& self.names.len() == self.cells.len()
        &&& forall|a: int, b: int|
            0 <= a < b < self.names.len() ==> #[trigger] self.names[a] != #[trigger] self.names[b]
        &&& self.cells.len() >= 1
        &&& self.raw.len() >= 1
        &&& forall|c: int| 0 <= c < self.cells.len() ==> (#[trigger] self.cells[c]).len() == self.raw.len()
    }

    /// Whether a column is called `name`.
    pub open spec fn has_column(&self, name: Seq<char>) -> bool {
        exists|c: int| 0 <= c < self.names.len() && #[trigger] self.names[c] == name
    }

    /// The position of a column called `name`.
    pub open spec fn column_index(&self, name: Seq<char>) -> int {
        choose|c: int| 0 <= c < self.names.len() && #[trigger] self.names[c] == name
    }

    /// The cell of row `i` in the column called `name`.
    pub open spec fn cell(&self, name: Seq<char>, i: int) -> Datum {
        self.cells[self.column_index(name)][i]
    }

    /// The cells of row `i` across the columns, in declaration order.
    pub open spec fn row(&self, i: int) -> Seq<Datum> {
        Seq::new(self.cells.len(), |c: int| self.cells[c][i])
    }

    /// The frame that holds the rows `rows` of this one, in that order.
    pub open spec fn select(&self, rows: Seq<int>) -> Frame {
        Frame {
            names: self.names,
            cells: Seq::new(
                self.cells.len(),
                |c: int| Seq::new(rows.len(), |k: int| self.cells[c][rows[k]]),
            ),
            raw: Seq::new(rows.len(), |k: int| self.raw[rows[k]]),
        }
    }

    /// The cells of row `i` in the columns called `names`, in that order.
    pub open spec fn key(&self, names: Seq<Seq<char>>, i: int) -> Seq<Datum> {
        Seq::new(names.len(), |k: int| self.cell(names[k], i))
    }
}

/// Why a set of columns and records is not a store.
#[derive(Clone, Copy, Debug, PartialEq, Eq, Structural)]
pub enum StoreError {
    /// There is no column.
    NoColumns,
    /// Two columns differ in length.
    ColumnLengthMismatch,
    /// The columns hold no row.
    NoRows,
    /// The number of raw records is not the number of rows.
    RawLengthMismatch,
}

/// The frame that a column map and raw records stand for.
pub open spec fn frame_of(entries: Seq<(String, Column)>, raw: Seq<String>) -> Frame {
    Frame {
        names: Seq::new(entries.len(), |c: int| entries[c].0@),
        cells: Seq::new(entries.len(), |c: int| entries[c].1.values.deep_view()),
        raw: Seq::new(raw.len(), |i: int| raw[i]@),
    }
}

/// The verdict on a column map with these column lengths and this many raw
/// records: the first defect in the order of `StoreError`, if there is one.
pub open spec fn store_defect(lengths: Seq<nat>, raw_len: nat) -> Option<StoreError> {
    if lengths.len() == 0 {
        Some(StoreError::NoColumns)
    } else if exists|c: int| 0 <= c < lengths.len() && #[trigger] lengths[c] != lengths[0] {
        Some(StoreError::ColumnLengthMismatch)
    } else if lengths[0] == 0 {
        Some(StoreError::NoRows)
    } else if raw_len != lengths[0] {
        Some(StoreError::RawLengthMismatch)
    } else {
        None
    }
}

/// The lengths of the columns of a map, in order.
pub open spec fn column_lengths(entries: Seq<(String, Column)>) -> Seq<nat> {
    Seq::new(entries.len(), |c: int| entries[c].1.values.len() as nat)
}

/// Common read access to a store and to the views derived from it.
pub trait DataFrame {
    /// The invariant of the implementing type.
    spec fn wf(&self) -> bool;

    /// The rows this frame shows, each as the cells of a row of the
    /// underlying store.
    spec fn rows(&self) -> Seq<Seq<Datum>>;

    /// The column names this frame shows.
    spec fn names(&self) -> Seq<Seq<char>>;

    /// The record text behind each row.
    spec fn raws(&self) -> Seq<Seq<char>>;

    fn len(&self) -> (n: usize)
        requires
            self.wf(),
        ensures
            n == self.rows().len(),
            n == self.raws().len(),
    ;

    fn column_names(&self) -> (names: Vec<&String>)
        requires
            self.wf(),
        ensures
            names.len() == self.names().len(),
            forall|c: int| 0 <= c < names.len() ==> (#[trigger] names[c])@ == self.names()[c],
    ;

    fn row(&self, index: usize) -> (cells: Vec<ColumnValue>)
        requires
            self.wf(),
            index < self.rows().len(),
        ensures
            cells.deep_view() == self.rows()[index as int],
    ;

    fn raw(&self, index: usize) -> (text: &String)
        requires
            self.wf(),
            index < self.rows().len(),
        ensures
            text@ == self.raws()[index as int],
    ;
}

/// An immutable store of typed columns with the text of each record.
#[derive(Debug, PartialEq)]
pub struct MaterializedDataFrame {
    pub columns: IndexMap<String, Column>,
    raw_values: Vec<String>,
}

impl View for MaterializedDataFrame {
    type V = Frame;

    closed spec fn view(&self) -> Frame {
        frame_of(column_entries(self.columns), self.raw_values@)
    }
}

impl MaterializedDataFrame {
    /// The store's invariant: see [`Frame::wf`].
    pub open spec fn wf(&self) -> bool {
        self@.wf()
    }

    /// The column map that the store was built from.
    pub closed spec fn entries(&self) -> Seq<(String, Column)> {
        column_entries(self.columns)
    }

    /// The view is the frame of the column map and the raw records.
    pub proof fn lemma_view(&self)
        ensures
            self@.names.len() == self.entries().len(),
            self@.cells.len() == self.entries().len(),
            forall|c: int| 0 <= c < self.entries().len() ==> #[trigger] self@.names[c] == self.entries()[c].0@,
            forall|c: int| 0 <= c < self.entries().len() ==> #[trigger] self@.cells[c] == self.entries()[c].1.values.deep_view(),
    {
    }

    /// Checks a column map and raw records and makes a store of them.
    pub fn construct(columns: IndexMap<String, Column>, raw_values: Vec<String>) -> (r: Result<
        MaterializedDataFrame,
        StoreError,
    >)
        ensures
            match r {
                Ok(df) => store_defect(column_lengths(column_entries(columns)), raw_values.len() as nat) is None
                    && df.wf() && df@ == frame_of(column_entries(columns), raw_values@)
                    && df.entries() == column_entries(columns),
                Err(e) => store_defect(column_lengths(column_entries(columns)), raw_values.len() as nat) == Some(e),
            },
    {
        let ghost entries = column_entries(columns);
        let ghost lengths = column_lengths(entries);
        let n = columns_len(&columns);
        if n == 0 {
            return Err(StoreError::NoColumns);
        }
        let rows = match columns_get_index(&columns, 0) {
            Some((_, first)) => first.values.len(),
            None => {
                return Err(StoreError::NoColumns);
            },
        };
        let mut c: usize = 1;
        while c < n
            invariant
                1 <= c <= n,
                n == entries.len(),
                entries == column_entries(columns),
                lengths == column_lengths(entries),
                rows == lengths[0],
                forall|k: int| 0 <= k < c ==> #[trigger] lengths[k] == lengths[0],
                forall|a: int, b: int|
                    0 <= a < c && 0 <= b < n && a != b ==> (#[trigger] entries[a]).0@ != (
                    #[trigger] entries[b]).0@,
            decreases n - c,
        {
            match columns_get_index(&columns, c) {
                Some((_, column)) => {
                    if column.values.len() != rows {
                        assert(lengths[c as int] != lengths[0]);
                        return Err(StoreError::ColumnLengthMismatch);
                    }
                },
                None => {},
            }
            c += 1;
        }
        if rows == 0 {
            return Err(StoreError::NoRows);
        }
        if raw_values.len() != rows {
            return Err(StoreError::RawLengthMismatch);
        }
        let df = MaterializedDataFrame { columns, raw_values };
        assert(df@.wf()) by {
            assert forall|k: int| 0 <= k < df@.cells.len() implies (#[trigger] df@.cells[k]).len()
                == df@.raw.len() by {
                assert(lengths[k] == lengths[0]);
            }
            assert forall|a: int, b: int| 0 <= a < b < df@.names.len() implies #[trigger] df@.names[a]
                != #[trigger] df@.names[b] by {
                assert(entries[a].0@ != entries[b].0@);
            }
        }
        Ok(df)
    }

    /// Makes a store of a column map and raw records that are known to fit.
    pub fn new(columns: IndexMap<String, Column>, raw_values: Vec<String>) -> (df:
        MaterializedDataFrame)
        requires
            frame_of(column_entries(columns), raw_values@).wf(),
        ensures
            df.wf(),
            df@ == frame_of(column_entries(columns), raw_values@),
            df.entries() == column_entries(columns),
    {
        MaterializedDataFrame { columns, raw_values }
    }
}


impl MaterializedDataFrame {
    /// The column at position `c` in declaration order.
    pub fn column_at(&self, c: usize) -> (column: &Column)
        requires
            self.wf(),
            c < self@.width(),
        ensures
            *column == self.entries()[c as int].1,
            column.values.deep_view() == self@.cells[c as int],
            column.values.len() == self@.height(),
    {
        match columns_get_index(&self.columns, c) {
            Some((_, column)) => {
                assert(self@.cells[c as int].len() == self@.raw.len());
                assert(column.values.deep_view().len() == column.values.len());
                column
            },
            None => unreached(),
        }
    }

    /// The position of the column called `name`, if the store has one.
    pub fn position(&self, name: &str) -> (r: Option<usize>)
        requires
            self.wf(),
        ensures
            r is Some == self@.has_column(name@),
            r matches Some(c) ==> c < self@.width() && c == self@.column_index(name@)
                && self@.names[c as int] == name@,
    {
        proof {
            self.lemma_view();
        }
        let r = columns_get_index_of(&self.columns, name);
        match r {
            Some(c) => {
                assert(self@.names[c as int] == name@);
                assert forall|k: int| 0 <= k < self@.names.len() && #[trigger] self@.names[k] == name@ implies k == c by {
                    assert(self.entries()[k].0@ == name@);
                }
            },
            None => {
                assert forall|k: int| 0 <= k < self@.names.len() implies #[trigger] self@.names[k] != name@ by {
                    assert(self.entries()[k].0@ != name@);
                }
            },
        }
        r
    }

    /// The column called `name`, if the store has one.
    pub fn column(&self, name: &str) -> (r: Option<&Column>)
        requires
            self.wf(),
        ensures
            r is Some == self@.has_column(name@),
            r matches Some(column) ==> column.values.deep_view() == self@.cells[self@.column_index(
                name@,
            )] && column.values.len() == self@.height(),
    {
        match self.position(name) {
            Some(c) => Some(self.column_at(c)),
            None => None,
        }
    }

    /// The cell of row `index` in the column called `name`.
    pub fn get(&self, name: &str, index: usize) -> (value: &ColumnValue)
        requires
            self.wf(),
            self@.has_column(name@),
            index < self@.height(),
        ensures
            value@ == self@.cell(name@, index as int),
    {
        match self.column(name) {
            Some(column) => {
                assert(column.values.deep_view()[index as int] == column.values[index as int]@);
                &column.values[index]
            },
            None => unreached(),
        }
    }
}

impl DataFrame for MaterializedDataFrame {
    open spec fn wf(&self) -> bool {
        self@.wf()
    }

    open spec fn rows(&self) -> Seq<Seq<Datum>> {
        Seq::new(self@.height(), |i: int| self@.row(i))
    }

    open spec fn names(&self) -> Seq<Seq<char>> {
        self@.names
    }

    open spec fn raws(&self) -> Seq<Seq<char>> {
        self@.raw
    }

    fn len(&self) -> (n: usize) {
        self.raw_values.len()
    }

    fn column_names(&self) -> (names: Vec<&String>) {
        proof {
            self.lemma_view();
        }
        let n = columns_len(&self.columns);
        let mut names: Vec<&String> = Vec::new();
        let mut c: usize = 0;
        while c < n
            invariant
                c <= n,
                n == self.entries().len(),
                self.entries() == column_entries(self.columns),
                names.len() == c,
                forall|k: int| 0 <= k < c ==> (#[trigger] names[k])@ == self.entries()[k].0@,
            decreases n - c,
        {
            match columns_get_index(&self.columns, c) {
                Some((name, _)) => {
                    names.push(name);
                },
                None => {
                    names = unreached();
                },
            }
            c += 1;
        }
        names
    }

    fn row(&self, index: usize) -> (cells: Vec<ColumnValue>) {
        let n = columns_len(&self.columns);
        let mut cells: Vec<ColumnValue> = Vec::new();
        let mut c: usize = 0;
        while c < n
            invariant
                c <= n,
                n == self@.width(),
                self.wf(),
                index < self@.height(),
                cells.len() == c,
                forall|k: int| 0 <= k < c ==> (#[trigger] cells[k])@ == self@.cells[k][index as int],
            decreases n - c,
        {
            let column = self.column_at(c);
            assert(column.values.deep_view()[index as int] == column.values[index as int]@);
            cells.push(column.values[index].clone());
            c += 1;
        }
        assert(cells.deep_view() =~= self@.row(index as int));
        cells
    }

    fn raw(&self, index: usize) -> (text: &String) {
        &self.raw_values[index]
    }
}


/// Row `i` of the frame meets every constraint that names one of its
/// columns: the cell in that column is the constraint's value.
pub open spec fn row_matches(frame: Frame, filters: Seq<(Seq<char>, Datum)>, i: int) -> bool {
    forall|k: int|
        0 <= k < filters.len() && frame.has_column((#[trigger] filters[k]).0) ==> frame.cell(
            filters[k].0,
            i,
        ) == filters[k].1
}

/// The rows below `n` that meet the constraints, in the order of the store.
pub open spec fn matching_rows(frame: Frame, filters: Seq<(Seq<char>, Datum)>, n: nat) -> Seq<int> {
    indices_where(n, |i: int| row_matches(frame, filters, i))
}

/// A subset of the rows of a store, in the store's order.
pub struct DataFrameFilterView<'a> {
    source: &'a MaterializedDataFrame,
    idx: Vec<usize>,
}

impl<'a> DataFrameFilterView<'a> {
    /// The store that the view reads.
    pub closed spec fn source(&self) -> MaterializedDataFrame {
        *self.source
    }

    /// The store rows that the view shows, in order.
    pub closed spec fn indices(&self) -> Seq<int> {
        as_ints(self.idx@)
    }

    /// The source index of the view's row `index`.
    pub fn source_index(&self, index: usize) -> (i: usize)
        requires
            DataFrame::wf(self),
            index < self.indices().len(),
        ensures
            i == self.indices()[index as int],
            i < self.source()@.height(),
    {
        self.idx[index]
    }

    /// The store that the view reads.
    pub fn source_frame(&self) -> (df: &'a MaterializedDataFrame)
        ensures
            *df == self.source(),
    {
        self.source
    }

    /// The cell of the view's row `index` in the column called `name`.
    pub fn get(&self, name: &str, index: usize) -> (value: &ColumnValue)
        requires
            DataFrame::wf(self),
            self.source()@.has_column(name@),
            index < self.indices().len(),
        ensures
            value@ == self.source()@.cell(name@, self.indices()[index as int]),
    {
        self.source.get(name, self.idx[index])
    }
}

impl<'a> DataFrame for DataFrameFilterView<'a> {
    open spec fn wf(&self) -> bool {
        &&& self.source().wf()
        &&& forall|k: int|
            0 <= k < self.indices().len() ==> 0 <= (#[trigger] self.indices()[k])
                < self.source()@.height()
    }

    open spec fn rows(&self) -> Seq<Seq<Datum>> {
        Seq::new(self.indices().len(), |k: int| self.source()@.row(self.indices()[k]))
    }

    open spec fn names(&self) -> Seq<Seq<char>> {
        self.source()@.names
    }

    open spec fn raws(&self) -> Seq<Seq<char>> {
        Seq::new(self.indices().len(), |k: int| self.source()@.raw[self.indices()[k]])
    }

    fn len(&self) -> (n: usize) {
        self.idx.len()
    }

    fn column_names(&self) -> (names: Vec<&String>) {
        self.source.column_names()
    }

    fn row(&self, index: usize) -> (cells: Vec<ColumnValue>) {
        assert(self.indices()[index as int] == self.idx[index as int]);
        self.source.row(self.idx[index])
    }

    fn raw(&self, index: usize) -> (text: &String) {
        assert(self.indices()[index as int] == self.idx[index as int]);
        self.source.raw(self.idx[index])
    }
}

impl MaterializedDataFrame {
    /// Whether row `i` meets the constraints; `positions[k]` is the column
    /// that constraint `k` names, if the store has it.
    fn row_passes(
        &self,
        column_filters: &Vec<(String, ColumnValue)>,
        positions: &Vec<Option<usize>>,
        i: usize,
    ) -> (ok: bool)
        requires
            self.wf(),
            i < self@.height(),
            positions.len() == column_filters.len(),
            forall|k: int|
                0 <= k < positions.len() ==> ((#[trigger] positions[k]) is Some
                    == self@.has_column(column_filters[k].0@)) && (positions[k] matches Some(c)
                    ==> c < self@.width() && c == self@.column_index(column_filters[k].0@)),
        ensures
            ok == row_matches(self@, column_filters.deep_view(), i as int),
    {
        let ghost filters = column_filters.deep_view();
        let mut k: usize = 0;
        while k < column_filters.len()
            invariant
                k <= column_filters.len(),
                self.wf(),
                i < self@.height(),
                filters == column_filters.deep_view(),
                positions.len() == column_filters.len(),
                forall|k: int|
                    0 <= k < positions.len() ==> ((#[trigger] positions[k]) is Some
                        == self@.has_column(column_filters[k].0@)) && (positions[k] matches Some(c)
                        ==> c < self@.width() && c == self@.column_index(column_filters[k].0@)),
                forall|j: int|
                    0 <= j < k && self@.has_column((#[trigger] filters[j]).0) ==> self@.cell(
                        filters[j].0,
                        i as int,
                    ) == filters[j].1,
            decreases column_filters.len() - k,
        {
            assert(filters[k as int] == (column_filters[k as int].0@, column_filters[k as int].1@));
            match positions[k] {
                Some(c) => {
                    let column = self.column_at(c);
                    assert(column.values.deep_view()[i as int] == column.values[i as int]@);
                    if !(column.values[i] == column_filters[k].1) {
                        assert(!row_matches(self@, filters, i as int));
                        return false;
                    }
                },
                None => {},
            }
            k += 1;
        }
        true
    }

    /// The rows that meet every constraint, in the store's order. A
    /// constraint pairs a column name with the value that a row must hold
    /// there; one that names no column of the store constrains nothing.
    pub fn filter(&self, column_filters: &Vec<(String, ColumnValue)>) -> (view: DataFrameFilterView<'_>)
        requires
            self.wf(),
        ensures
            view.source() == *self,
            view.indices() == matching_rows(self@, column_filters.deep_view(), self@.height()),
            DataFrame::wf(&view),
    {
        let ghost filters = column_filters.deep_view();
        let mut positions: Vec<Option<usize>> = Vec::new();
        let mut k: usize = 0;
        while k < column_filters.len()
            invariant
                k <= column_filters.len(),
                self.wf(),
                positions.len() == k,
                forall|j: int|
                    0 <= j < k ==> ((#[trigger] positions[j]) is Some == self@.has_column(
                        column_filters[j].0@,
                    )) && (positions[j] matches Some(c) ==> c < self@.width() && c
                        == self@.column_index(column_filters[j].0@)),
            decreases column_filters.len() - k,
        {
            let p = self.position(column_filters[k].0.as_str());
            positions.push(p);
            k += 1;
        }
        let n = self.len();
        let mut idx: Vec<usize> = Vec::new();
        let mut i: usize = 0;
        while i < n
            invariant
                i <= n,
                n == self@.height(),
                self.wf(),
                filters == column_filters.deep_view(),
                positions.len() == column_filters.len(),
                forall|j: int|
                    0 <= j < positions.len() ==> ((#[trigger] positions[j]) is Some
                        == self@.has_column(column_filters[j].0@)) && (positions[j] matches Some(c)
                        ==> c < self@.width() && c == self@.column_index(column_filters[j].0@)),
                as_ints(idx@) == matching_rows(self@, filters, i as nat),
            decreases n - i,
        {
            let ghost before = as_ints(idx@);
            if self.row_passes(column_filters, &positions, i) {
                idx.push(i);
                assert(as_ints(idx@) =~= before.push(i as int));
            }
            i += 1;
        }
        let view = DataFrameFilterView { source: self, idx };
        proof {
            lemma_indices_where(n as nat, |i: int| row_matches(self@, filters, i));
        }
        view
    }
}

/// A filter keeps no more rows than the store has, keeps them in the
/// store's order, keeps exactly the rows that meet the constraints, and
/// without constraints keeps every row.
pub proof fn lemma_filter(frame: Frame, filters: Seq<(Seq<char>, Datum)>)
    ensures
        matching_rows(frame, filters, frame.height()).len() <= frame.height(),
        forall|k: int|
            0 <= k < matching_rows(frame, filters, frame.height()).len() ==> {
                let i = #[trigger] matching_rows(frame, filters, frame.height())[k];
                0 <= i < frame.height() && row_matches(frame, filters, i)
            },
        forall|k: int, l: int|
            0 <= k < l < matching_rows(frame, filters, frame.height()).len() ==> (
            #[trigger] matching_rows(frame, filters, frame.height())[k]) < (#[trigger] matching_rows(
                frame,
                filters,
                frame.height(),
            )[l]),
        forall|i: int|
            0 <= i < frame.height() && row_matches(frame, filters, i) ==> matching_rows(
                frame,
                filters,
                frame.height(),
            ).contains(i),
        filters.len() == 0 ==> matching_rows(frame, filters, frame.height()) == Seq::new(
            frame.height(),
            |i: int| i,
        ),
{
    let pred = |i: int| row_matches(frame, filters, i);
    lemma_indices_where(frame.height(), pred);
    if filters.len() == 0 {
        lemma_indices_where_all(frame.height(), pred);
    }
    assert forall|i: int| 0 <= i < frame.height() && row_matches(frame, filters, i) implies matching_rows(
        frame,
        filters,
        frame.height(),
    ).contains(i) by {
        assert(pred(i));
    }
}



/// Every name is a column of the frame.
pub open spec fn all_columns(frame: Frame, names: Seq<Seq<char>>) -> bool {
    forall|k: int| 0 <= k < names.len() ==> frame.has_column(#[trigger] names[k])
}

/// Rows `i` and `j` hold the same cells in the key columns.
pub open spec fn same_key(frame: Frame, keys: Seq<Seq<char>>, i: int, j: int) -> bool {
    frame.key(keys, i) == frame.key(keys, j)
}

/// Row `i` is the first row with its key tuple.
pub open spec fn is_head(frame: Frame, keys: Seq<Seq<char>>, i: int) -> bool {
    forall|j: int| 0 <= j < i ==> !same_key(frame, keys, j, i)
}

/// Among the rows below `n`, the first row of each distinct key tuple, in
/// ascending order.
pub open spec fn group_heads(frame: Frame, keys: Seq<Seq<char>>, n: nat) -> Seq<int> {
    indices_where(n, |i: int| is_head(frame, keys, i))
}

/// Among the rows below `n`, those with the key tuple of row `head`, in
/// ascending order.
pub open spec fn group_members(frame: Frame, keys: Seq<Seq<char>>, head: int, n: nat) -> Seq<int> {
    indices_where(n, |j: int| same_key(frame, keys, head, j))
}

/// The groups of the rows below `n`: one per distinct key tuple, in the
/// order in which the tuples first occur, each with its rows in ascending
/// order.
pub open spec fn groups_of(frame: Frame, keys: Seq<Seq<char>>, n: nat) -> Seq<Seq<int>> {
    Seq::new(
        group_heads(frame, keys, n).len(),
        |g: int| group_members(frame, keys, group_heads(frame, keys, n)[g], n),
    )
}

/// Every row below `n` has a head at or before it with the same key tuple.
pub proof fn lemma_head_exists(frame: Frame, keys: Seq<Seq<char>>, n: nat, j: int)
    requires
        0 <= j < n,
    ensures
        exists|g: int|
            0 <= g < group_heads(frame, keys, n).len() && #[trigger] group_heads(frame, keys, n)[g]
                <= j && same_key(frame, keys, group_heads(frame, keys, n)[g], j),
    decreases j,
{
    let heads = group_heads(frame, keys, n);
    lemma_indices_where(n, |i: int| is_head(frame, keys, i));
    if is_head(frame, keys, j) {
        assert(heads.contains(j));
        let g = choose|g: int| 0 <= g < heads.len() && heads[g] == j;
        assert(heads[g] <= j && same_key(frame, keys, heads[g], j));
    } else {
        let earlier = choose|e: int| 0 <= e < j && same_key(frame, keys, e, j);
        lemma_head_exists(frame, keys, n, earlier);
        let g = choose|g: int|
            0 <= g < heads.len() && #[trigger] heads[g] <= earlier && same_key(
                frame,
                keys,
                heads[g],
                earlier,
            );
        assert(heads[g] <= j && same_key(frame, keys, heads[g], j));
    }
}

/// The heads are rows below `n`, ascend, and have pairwise distinct key
/// tuples.
pub proof fn lemma_heads(frame: Frame, keys: Seq<Seq<char>>, n: nat)
    ensures
        group_heads(frame, keys, n).len() <= n,
        forall|g: int|
            0 <= g < group_heads(frame, keys, n).len() ==> 0 <= (#[trigger] group_heads(
                frame,
                keys,
                n,
            )[g]) < n && is_head(frame, keys, group_heads(frame, keys, n)[g]),
        forall|g: int, h: int|
            0 <= g < h < group_heads(frame, keys, n).len() ==> (#[trigger] group_heads(
                frame,
                keys,
                n,
            )[g]) < (#[trigger] group_heads(frame, keys, n)[h]),
        forall|g: int, h: int|
            0 <= g < group_heads(frame, keys, n).len() && 0 <= h < group_heads(
                frame,
                keys,
                n,
            ).len() && g != h ==> !same_key(
                frame,
                keys,
                #[trigger] group_heads(frame, keys, n)[g],
                #[trigger] group_heads(frame, keys, n)[h],
            ),
{
    let heads = group_heads(frame, keys, n);
    lemma_indices_where(n, |i: int| is_head(frame, keys, i));
    assert forall|g: int, h: int|
        0 <= g < heads.len() && 0 <= h < heads.len() && g != h implies !same_key(
        frame,
        keys,
        #[trigger] heads[g],
        #[trigger] heads[h],
    ) by {
        if g < h {
            assert(heads[g] < heads[h]);
            assert(is_head(frame, keys, heads[h]));
            assert(!same_key(frame, keys, heads[g], heads[h]));
        } else {
            assert(heads[h] < heads[g]);
            assert(is_head(frame, keys, heads[g]));
            assert(!same_key(frame, keys, heads[h], heads[g]));
        }
    }
}


/// How the groups of the rows below `i + 1` come from those below `i`: a
/// row with a new key tuple opens a group at the end, any other row joins
/// the group of its key tuple.
pub proof fn lemma_group_step(frame: Frame, keys: Seq<Seq<char>>, i: nat)
    ensures
        is_head(frame, keys, i as int) ==> group_heads(frame, keys, i + 1) == group_heads(
            frame,
            keys,
            i,
        ).push(i as int) && groups_of(frame, keys, i + 1) == groups_of(frame, keys, i).push(
            seq![i as int],
        ),
        !is_head(frame, keys, i as int) ==> group_heads(frame, keys, i + 1) == group_heads(
            frame,
            keys,
            i,
        ),
        forall|g: int|
            0 <= g < group_heads(frame, keys, i).len() && same_key(
                frame,
                keys,
                #[trigger] group_heads(frame, keys, i)[g],
                i as int,
            ) ==> groups_of(frame, keys, i + 1) == groups_of(frame, keys, i).update(
                g,
                groups_of(frame, keys, i)[g].push(i as int),
            ),
{
    let heads = group_heads(frame, keys, i);
    let next_heads = group_heads(frame, keys, i + 1);
    let before = groups_of(frame, keys, i);
    let after = groups_of(frame, keys, i + 1);
    lemma_heads(frame, keys, i);
    assert(next_heads == if is_head(frame, keys, i as int) {
        heads.push(i as int)
    } else {
        heads
    });
    assert forall|h: int| true implies #[trigger] group_members(frame, keys, h, i + 1) == if same_key(
        frame,
        keys,
        h,
        i as int,
    ) {
        group_members(frame, keys, h, i).push(i as int)
    } else {
        group_members(frame, keys, h, i)
    } by {}
    if is_head(frame, keys, i as int) {
        assert forall|j: int| 0 <= j < i implies !same_key(frame, keys, i as int, j) by {
            assert(!same_key(frame, keys, j, i as int));
        }
        lemma_indices_where_none(i, |j: int| same_key(frame, keys, i as int, j));
        assert(group_members(frame, keys, i as int, i + 1) =~= seq![i as int]);
        assert forall|g: int| 0 <= g < heads.len() implies !same_key(
            frame,
            keys,
            #[trigger] heads[g],
            i as int,
        ) by {}
        assert(after =~= before.push(seq![i as int]));
    } else {
        assert forall|g: int|
            0 <= g < heads.len() && same_key(frame, keys, #[trigger] heads[g], i as int) implies after
            == before.update(g, before[g].push(i as int)) by {
            assert forall|h: int| 0 <= h < heads.len() && h != g implies !same_key(
                frame,
                keys,
                #[trigger] heads[h],
                i as int,
            ) by {
                assert(!same_key(frame, keys, heads[h], heads[g]));
            }
            assert(after =~= before.update(g, before[g].push(i as int)));
        }
    }
}

/// The row lists held by a list of groups.
pub open spec fn groups_view(groups: Seq<Vec<usize>>) -> Seq<Seq<int>> {
    Seq::new(groups.len(), |g: int| as_ints(groups[g]@))
}

/// One row per distinct key tuple of a store, with the rows of each tuple.
pub struct DataFrameGroupView<'a> {
    source: &'a MaterializedDataFrame,
    group_columns: &'a [String],
    extra_columns: &'a [String],
    group_idx: Vec<Vec<usize>>,
}

impl<'a> DataFrameGroupView<'a> {
    /// The store that the view reads.
    pub closed spec fn source(&self) -> MaterializedDataFrame {
        *self.source
    }

    /// The names of the key columns, in order.
    pub closed spec fn key_names(&self) -> Seq<Seq<char>> {
        texts_of(self.group_columns@)
    }

    /// The names of the extra display columns, in order.
    pub closed spec fn extra_names(&self) -> Seq<Seq<char>> {
        texts_of(self.extra_columns@)
    }

    /// The store rows of each group.
    pub closed spec fn groups(&self) -> Seq<Seq<int>> {
        groups_view(self.group_idx@)
    }
}

impl<'a> DataFrame for DataFrameGroupView<'a> {
    open spec fn wf(&self) -> bool {
        &&& self.source().wf()
        &&& all_columns(self.source()@, self.key_names())
        &&& all_columns(self.source()@, self.extra_names())
        &&& self.groups() == groups_of(self.source()@, self.key_names(), self.source()@.height())
    }

    open spec fn rows(&self) -> Seq<Seq<Datum>> {
        Seq::new(self.groups().len(), |g: int| self.source()@.row(self.groups()[g][0]))
    }

    open spec fn names(&self) -> Seq<Seq<char>> {
        self.key_names() + self.extra_names()
    }

    open spec fn raws(&self) -> Seq<Seq<char>> {
        Seq::new(self.groups().len(), |g: int| self.source()@.raw[self.groups()[g][0]])
    }

    fn len(&self) -> (n: usize) {
        self.group_idx.len()
    }

    fn column_names(&self) -> (names: Vec<&String>) {
        let mut names: Vec<&String> = Vec::new();
        let mut k: usize = 0;
        while k < self.group_columns.len()
            invariant
                k <= self.group_columns.len(),
                names.len() == k,
                forall|j: int| 0 <= j < k ==> (#[trigger] names[j])@ == self.key_names()[j],
            decreases self.group_columns.len() - k,
        {
            names.push(&self.group_columns[k]);
            k += 1;
        }
        let mut e: usize = 0;
        while e < self.extra_columns.len()
            invariant
                e <= self.extra_columns.len(),
                names.len() == self.group_columns.len() + e,
                self.key_names().len() == self.group_columns.len(),
                forall|j: int|
                    0 <= j < self.group_columns.len() ==> (#[trigger] names[j])@
                        == self.key_names()[j],
                forall|j: int|
                    0 <= j < e ==> (#[trigger] names[self.group_columns.len() + j])@
                        == self.extra_names()[j],
            decreases self.extra_columns.len() - e,
        {
            names.push(&self.extra_columns[e]);
            e += 1;
        }
        assert forall|c: int| 0 <= c < names.len() implies (#[trigger] names[c])@ == (
        self.key_names() + self.extra_names())[c] by {
            if c >= self.group_columns.len() {
                assert(names[self.group_columns.len() + (c - self.group_columns.len())]@
                    == self.extra_names()[c - self.group_columns.len()]);
            }
        }
        names
    }

    fn row(&self, index: usize) -> (cells: Vec<ColumnValue>) {
        let i = self.representative(index);
        self.source.row(i)
    }

    fn raw(&self, index: usize) -> (text: &String) {
        let i = self.representative(index);
        self.source.raw(i)
    }
}

impl<'a> DataFrameGroupView<'a> {
    /// The store that the view reads.
    pub fn source_frame(&self) -> (df: &'a MaterializedDataFrame)
        ensures
            *df == self.source(),
    {
        self.source
    }

    /// The key columns, in order.
    pub fn key_columns(&self) -> (columns: &'a [String])
        ensures
            texts_of(columns@) == self.key_names(),
    {
        self.group_columns
    }

    /// The store rows of group `index`, in the store's order.
    pub fn group_indices(&self, index: usize) -> (members: &Vec<usize>)
        requires
            DataFrame::wf(self),
            index < self.groups().len(),
        ensures
            as_ints(members@) == self.groups()[index as int],
            members.len() >= 1,
            forall|m: int| 0 <= m < members.len() ==> (#[trigger] members[m]) < self.source()@.height(),
    {
        proof {
            lemma_groups(self.source()@, self.key_names(), self.source()@.height());
        }
        let members = &self.group_idx[index];
        assert(as_ints(members@) == self.groups()[index as int]);
        assert forall|m: int| 0 <= m < members.len() implies (#[trigger] members[m])
            < self.source()@.height() by {
            assert(as_ints(members@)[m] == members[m]);
            assert(0 <= self.groups()[index as int][m] < self.source()@.height());
        }
        members
    }

    /// The representative of group `index`: its first row in the store.
    pub fn representative(&self, index: usize) -> (i: usize)
        requires
            DataFrame::wf(self),
            index < self.groups().len(),
        ensures
            i == self.groups()[index as int][0],
            i == group_heads(self.source()@, self.key_names(), self.source()@.height())[index as int],
            i < self.source()@.height(),
    {
        proof {
            lemma_groups(self.source()@, self.key_names(), self.source()@.height());
        }
        let members = self.group_indices(index);
        assert(as_ints(members@)[0] == members[0]);
        members[0]
    }

    /// The cell of the representative of group `index` in the column
    /// called `name`.
    pub fn get(&self, name: &str, index: usize) -> (value: &ColumnValue)
        requires
            DataFrame::wf(self),
            self.source()@.has_column(name@),
            index < self.groups().len(),
        ensures
            value@ == self.source()@.cell(name@, self.groups()[index as int][0]),
    {
        let i = self.representative(index);
        self.source.get(name, i)
    }
}

impl MaterializedDataFrame {
    /// The cells of row `i` in the key columns, which stand at `positions`.
    fn key_cells(&self, columns: &[String], positions: &Vec<usize>, i: usize) -> (cells: Vec<
        ColumnValue,
    >)
        requires
            self.wf(),
            i < self@.height(),
            positions.len() == columns.len(),
            forall|k: int|
                0 <= k < positions.len() ==> (#[trigger] positions[k]) < self@.width()
                    && positions[k] == self@.column_index(columns[k]@),
        ensures
            cells.deep_view() == self@.key(texts_of(columns@), i as int),
    {
        let mut cells: Vec<ColumnValue> = Vec::new();
        let mut k: usize = 0;
        while k < positions.len()
            invariant
                k <= positions.len(),
                self.wf(),
                i < self@.height(),
                positions.len() == columns.len(),
                forall|k: int|
                    0 <= k < positions.len() ==> (#[trigger] positions[k]) < self@.width()
                        && positions[k] == self@.column_index(columns[k]@),
                cells.len() == k,
                forall|j: int|
                    0 <= j < k ==> (#[trigger] cells[j])@ == self@.cell(columns[j]@, i as int),
            decreases positions.len() - k,
        {
            let column = self.column_at(positions[k]);
            assert(column.values.deep_view()[i as int] == column.values[i as int]@);
            cells.push(column.values[i].clone());
            k += 1;
        }
        assert(cells.deep_view() =~= self@.key(texts_of(columns@), i as int));
        cells
    }

    /// The positions of the columns called `columns`.
    fn positions(&self, columns: &[String]) -> (positions: Vec<usize>)
        requires
            self.wf(),
            all_columns(self@, texts_of(columns@)),
        ensures
            positions.len() == columns.len(),
            forall|k: int|
                0 <= k < positions.len() ==> (#[trigger] positions[k]) < self@.width()
                    && positions[k] == self@.column_index(columns[k]@),
    {
        let mut positions: Vec<usize> = Vec::new();
        let mut k: usize = 0;
        while k < columns.len()
            invariant
                k <= columns.len(),
                self.wf(),
                all_columns(self@, texts_of(columns@)),
                positions.len() == k,
                forall|j: int|
                    0 <= j < k ==> (#[trigger] positions[j]) < self@.width() && positions[j]
                        == self@.column_index(columns[j]@),
            decreases columns.len() - k,
        {
            assert(texts_of(columns@)[k as int] == columns[k as int]@);
            match self.position(columns[k].as_str()) {
                Some(c) => {
                    positions.push(c);
                },
                None => {
                    positions = unreached();
                },
            }
            k += 1;
        }
        positions
    }

    /// Groups the rows by their cells in `columns`: one group per distinct
    /// key tuple, in the order in which the tuples first occur, each with
    /// its rows in the store's order. `extra_columns` are shown beside the
    /// key columns.
    pub fn group_by<'a>(&'a self, columns: &'a [String], extra_columns: &'a [String]) -> (view:
        DataFrameGroupView<'a>)
        requires
            self.wf(),
            all_columns(self@, texts_of(columns@)),
            all_columns(self@, texts_of(extra_columns@)),
        ensures
            view.source() == *self,
            view.key_names() == texts_of(columns@),
            view.extra_names() == texts_of(extra_columns@),
            view.groups() == groups_of(self@, texts_of(columns@), self@.height()),
            DataFrame::wf(&view),
    {
        let ghost frame = self@;
        let ghost keys = texts_of(columns@);
        let positions = self.positions(columns);
        let n = self.len();
        let mut slots = slots_new();
        let mut group_idx: Vec<Vec<usize>> = Vec::new();
        let mut i: usize = 0;
        while i < n
            invariant
                i <= n,
                n == self@.height(),
                self.wf(),
                frame == self@,
                keys == texts_of(columns@),
                positions.len() == columns.len(),
                forall|k: int|
                    0 <= k < positions.len() ==> (#[trigger] positions[k]) < self@.width()
                        && positions[k] == self@.column_index(columns[k]@),
                groups_view(group_idx@) == groups_of(frame, keys, i as nat),
                group_idx.len() == group_heads(frame, keys, i as nat).len(),
                forall|g: int|
                    0 <= g < group_heads(frame, keys, i as nat).len() ==> group_slots(
                        slots,
                    ).contains_key(
                        frame.key(keys, #[trigger] group_heads(frame, keys, i as nat)[g]),
                    ) && group_slots(slots)[frame.key(
                        keys,
                        group_heads(frame, keys, i as nat)[g],
                    )] == g,
                forall|key: Seq<Datum>| #[trigger]
                    group_slots(slots).contains_key(key) ==> group_slots(slots)[key]
                        < group_heads(frame, keys, i as nat).len() && frame.key(
                        keys,
                        group_heads(frame, keys, i as nat)[group_slots(slots)[key] as int],
                    ) == key,
            decreases n - i,
        {
            let ghost heads = group_heads(frame, keys, i as nat);
            let ghost before = groups_view(group_idx@);
            proof {
                lemma_group_step(frame, keys, i as nat);
                lemma_heads(frame, keys, i as nat);
            }
            let key = self.key_cells(columns, &positions, i);
            let found = match slots_get(&slots, &key) {
                Some(g) => Some(*g),
                None => None,
            };
            match found {
                Some(g) => {
                    assert(same_key(frame, keys, heads[g as int], i as int));
                    assert(!is_head(frame, keys, i as int));
                    let ghost members = group_idx[g as int]@;
                    group_idx[g].push(i);
                    assert(as_ints(group_idx[g as int]@) =~= as_ints(members).push(i as int));
                    assert(groups_view(group_idx@) =~= before.update(g as int, before[g as int].push(i as int)));
                },
                None => {
                    assert(is_head(frame, keys, i as int)) by {
                        assert forall|j: int| 0 <= j < i implies !same_key(frame, keys, j, i as int) by {
                            lemma_head_exists(frame, keys, i as nat, j);
                        }
                    }
                    let mut members: Vec<usize> = Vec::new();
                    members.push(i);
                    assert(as_ints(members@) =~= seq![i as int]);
                    let g = group_idx.len();
                    group_idx.push(members);
                    assert(groups_view(group_idx@) =~= before.push(seq![i as int]));
                    slots_insert(&mut slots, key, g);
                    assert(group_heads(frame, keys, (i + 1) as nat) == heads.push(i as int));
                },
            }
            i += 1;
        }
        DataFrameGroupView { source: self, group_columns: columns, extra_columns, group_idx }
    }
}


/// Each group is headed by the first row of its key tuple, holds only rows
/// below `n` with that key tuple, in ascending order, and is not empty.
pub proof fn lemma_groups(frame: Frame, keys: Seq<Seq<char>>, n: nat)
    ensures
        groups_of(frame, keys, n).len() == group_heads(frame, keys, n).len(),
        n >= 1 ==> groups_of(frame, keys, n).len() >= 1,
        forall|g: int|
            0 <= g < groups_of(frame, keys, n).len() ==> (#[trigger] groups_of(
                frame,
                keys,
                n,
            )[g]).len() >= 1 && groups_of(frame, keys, n)[g][0] == group_heads(frame, keys, n)[g],
        forall|g: int, m: int|
            0 <= g < groups_of(frame, keys, n).len() && 0 <= m < groups_of(frame, keys, n)[g].len()
                ==> 0 <= (#[trigger] groups_of(frame, keys, n)[g][m]) < n && same_key(
                frame,
                keys,
                group_heads(frame, keys, n)[g],
                groups_of(frame, keys, n)[g][m],
            ),
        forall|g: int, l: int, m: int|
            0 <= g < groups_of(frame, keys, n).len() && 0 <= l < m < groups_of(
                frame,
                keys,
                n,
            )[g].len() ==> (#[trigger] groups_of(frame, keys, n)[g][l]) < (#[trigger] groups_of(
                frame,
                keys,
                n,
            )[g][m]),
{
    let heads = group_heads(frame, keys, n);
    let groups = groups_of(frame, keys, n);
    lemma_heads(frame, keys, n);
    if n >= 1 {
        lemma_head_exists(frame, keys, n, 0);
    }
    assert forall|g: int| 0 <= g < groups.len() implies (#[trigger] groups[g]).len() >= 1
        && groups[g][0] == heads[g] && (forall|m: int|
        0 <= m < groups[g].len() ==> 0 <= (#[trigger] groups[g][m]) < n && same_key(
            frame,
            keys,
            heads[g],
            groups[g][m],
        )) && (forall|l: int, m: int|
        0 <= l < m < groups[g].len() ==> (#[trigger] groups[g][l]) < (#[trigger] groups[g][m])) by {
        let head = heads[g];
        let pred = |j: int| same_key(frame, keys, head, j);
        lemma_indices_where(n, pred);
        assert(groups[g] == indices_where(n, pred));
        assert(pred(head));
        assert(groups[g].contains(head));
        let at = choose|k: int| 0 <= k < groups[g].len() && groups[g][k] == head;
        if at > 0 {
            let j = groups[g][0];
            assert(j < head);
            assert(pred(j));
            assert(is_head(frame, keys, head));
            assert(!same_key(frame, keys, j, head));
        }
    }
}

/// Row `i` stands in one of the groups.
pub open spec fn holds_row(groups: Seq<Seq<int>>, i: int) -> bool {
    exists|g: int, m: int|
        0 <= g < groups.len() && 0 <= m < groups[g].len() && #[trigger] groups[g][m] == i
}

/// The groups split the rows: every row below `n` stands in exactly one
/// place of exactly one group.
pub proof fn lemma_groups_partition(frame: Frame, keys: Seq<Seq<char>>, n: nat)
    ensures
        forall|i: int| 0 <= i < n ==> #[trigger] holds_row(groups_of(frame, keys, n), i),
        forall|g: int, m: int, h: int, l: int|
            0 <= g < groups_of(frame, keys, n).len() && 0 <= m < groups_of(frame, keys, n)[g].len()
                && 0 <= h < groups_of(frame, keys, n).len() && 0 <= l < groups_of(
                frame,
                keys,
                n,
            )[h].len() && (#[trigger] groups_of(frame, keys, n)[g][m]) == (#[trigger] groups_of(
                frame,
                keys,
                n,
            )[h][l]) ==> g == h && m == l,
{
    let heads = group_heads(frame, keys, n);
    let groups = groups_of(frame, keys, n);
    lemma_heads(frame, keys, n);
    lemma_groups(frame, keys, n);
    assert forall|i: int| 0 <= i < n implies #[trigger] holds_row(groups, i) by {
        lemma_head_exists(frame, keys, n, i);
        let g = choose|g: int|
            0 <= g < heads.len() && #[trigger] heads[g] <= i && same_key(frame, keys, heads[g], i);
        let pred = |j: int| same_key(frame, keys, heads[g], j);
        lemma_indices_where(n, pred);
        assert(pred(i));
        assert(groups[g].contains(i));
        let m = choose|m: int| 0 <= m < groups[g].len() && groups[g][m] == i;
        assert(groups[g][m] == i);
    }
    assert forall|g: int, m: int, h: int, l: int|
        0 <= g < groups.len() && 0 <= m < groups[g].len() && 0 <= h < groups.len() && 0 <= l
            < groups[h].len() && (#[trigger] groups[g][m]) == (#[trigger] groups[h][l]) implies g
        == h && m == l by {
        assert(same_key(frame, keys, heads[g], groups[g][m]));
        assert(same_key(frame, keys, heads[h], groups[h][l]));
        if g != h {
            assert(!same_key(frame, keys, heads[g], heads[h]));
        }
        if m < l {
            assert(groups[g][m] < groups[g][l]);
        }
        if l < m {
            assert(groups[g][l] < groups[g][m]);
        }
    }
}

/// Grouping the representative rows of a grouping by the same key columns
/// gives one group per representative: no two groups merge.
pub proof fn lemma_regroup(frame: Frame, keys: Seq<Seq<char>>)
    requires
        frame.wf(),
        all_columns(frame, keys),
    ensures
        groups_of(
            frame.select(group_heads(frame, keys, frame.height())),
            keys,
            group_heads(frame, keys, frame.height()).len(),
        ) == Seq::new(group_heads(frame, keys, frame.height()).len(), |g: int| seq![g]),
{
    let heads = group_heads(frame, keys, frame.height());
    let picked = frame.select(heads);
    let count = heads.len();
    lemma_heads(frame, keys, frame.height());
    assert forall|g: int| 0 <= g < count implies #[trigger] picked.key(keys, g) == frame.key(
        keys,
        heads[g],
    ) by {
        assert forall|k: int| 0 <= k < keys.len() implies picked.cell(keys[k], g) == frame.cell(
            keys[k],
            heads[g],
        ) by {
            let c = frame.column_index(keys[k]);
            assert(frame.has_column(keys[k]));
            assert(picked.column_index(keys[k]) == c);
            assert(picked.cells[c][g] == frame.cells[c][heads[g]]);
        }
        assert(picked.key(keys, g) =~= frame.key(keys, heads[g]));
    }
    assert forall|g: int, h: int| 0 <= g < count && 0 <= h < count implies same_key(
        picked,
        keys,
        g,
        h,
    ) == (g == h) by {
        assert(picked.key(keys, g) == frame.key(keys, heads[g]));
        assert(picked.key(keys, h) == frame.key(keys, heads[h]));
        if g != h {
            assert(!same_key(frame, keys, heads[g], heads[h]));
        }
    }
    let head_pred = |i: int| is_head(picked, keys, i);
    assert forall|i: int| 0 <= i < count implies #[trigger] head_pred(i) by {
        assert forall|j: int| 0 <= j < i implies !same_key(picked, keys, j, i) by {
            assert(same_key(picked, keys, j, i) == (j == i));
        }
    }
    lemma_indices_where_all(count, head_pred);
    let regrouped = groups_of(picked, keys, count);
    assert(group_heads(picked, keys, count) == Seq::new(count, |i: int| i));
    assert forall|g: int| 0 <= g < count implies #[trigger] regrouped[g] == seq![g] by {
        let pred = |j: int| same_key(picked, keys, g, j);
        assert forall|j: int| 0 <= j < count implies #[trigger] pred(j) == (j == g) by {
            assert(same_key(picked, keys, g, j) == (g == j));
        }
        lemma_indices_where_single(count, pred, g);
    }
    assert(regrouped =~= Seq::new(count, |g: int| seq![g]));
}

} // verus!
