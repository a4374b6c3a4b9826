//! The drill-down navigator: a stack of views that commands push, pop and
//! move within.

use vstd::prelude::*;
use crate::io::dataframe::{
    all_columns,
    lemma_groups,
    matching_rows,
    row_matches,
    DataFrame,
    Frame,
    MaterializedDataFrame,
    groups_of,
};
use crate::io::select::lemma_indices_where;
use crate::io::value::{ColumnValue, Datum};
use crate::io::json::parsed_json;
use crate::text::{decimal_text, texts_of};
use crate::ui::card::{card_height, lines_of, yaml_lines, CardView};
use crate::ui::footer::Footer;
use crate::ui::table;
use crate::ui::table::{column_constraint, row_shown, Cell, Constraint, TableData, TableView};
use crate::ui::timeline::{create_timeline_column, group_blocks};

verus! {

/// What the current view is.
#[derive(Clone, Copy, Debug, PartialEq, Eq, Structural)]
pub enum AppMode {
    /// The groups of the store.
    Grouped,
    /// The rows of one group; the flag says whether the selected row is
    /// shown in detail.
    Filtered(bool),
}

impl AppMode {
    /// The label of the mode.
    pub fn get_name(&self) -> (name: &'static str)
        ensures
            name@ == match self {
                AppMode::Grouped => "GROUPED"@,
                AppMode::Filtered(_) => "FILTERED"@,
            },
    {
        match self {
            AppMode::Grouped => "GROUPED",
            AppMode::Filtered(_) => "FILTERED",
        }
    }
}

/// One level of the drill-down: a table and what it is.
pub struct AppState<'a> {
    pub table_view_model: table::ViewModel<'a>,
    pub mode: AppMode,
}

impl<'a> AppState<'a> {
    /// The table is valid, and it shows groups exactly in grouped mode.
    pub open spec fn wf(&self) -> bool {
        &&& self.table_view_model.wf()
        &&& self.mode is Grouped <==> self.table_view_model.df is Grouped
    }
}

/// The constraints that pick the rows with the key tuple of row `row`: each
/// key column with the cell that the row holds there.
pub open spec fn key_filters(frame: Frame, keys: Seq<Seq<char>>, row: int) -> Seq<(Seq<char>, Datum)> {
    Seq::new(keys.len(), |k: int| (keys[k], frame.cell(keys[k], row)))
}

/// The navigator: the store and the stack of levels above it.
pub struct ViewModel<'a> {
    source_df: &'a MaterializedDataFrame,
    state: Vec<AppState<'a>>,
}

impl<'a> ViewModel<'a> {
    /// The store that every level reads.
    pub closed spec fn source(&self) -> MaterializedDataFrame {
        *self.source_df
    }

    /// The levels, the root first.
    pub closed spec fn frames(&self) -> Seq<AppState<'a>> {
        self.state@
    }

    /// There is a root level, it alone shows groups, and every level is
    /// valid and reads the navigator's store.
    pub open spec fn wf(&self) -> bool {
        &&& self.frames().len() >= 1
        &&& self.frames()[0].mode is Grouped
        &&& forall|i: int|
            0 <= i < self.frames().len() ==> (#[trigger] self.frames()[i]).wf()
                && self.frames()[i].table_view_model.df.source() == self.source() && (i >= 1
                ==> self.frames()[i].mode is Filtered)
    }

    /// The current level.
    pub open spec fn top(&self) -> AppState<'a> {
        self.frames().last()
    }

    /// A navigator over the groups of `source_df` by `group_columns`, with
    /// a timeline per group where a timeline column is named.
    pub fn new(
        source_df: &'a MaterializedDataFrame,
        group_columns: &'a [String],
        show_in_grouped_mode: &'a [String],
        timeline_column: &'a Option<String>,
    ) -> (model: ViewModel<'a>)
        requires
            source_df.wf(),
            all_columns(source_df@, texts_of(group_columns@)),
            all_columns(source_df@, texts_of(show_in_grouped_mode@)),
        ensures
            model.wf(),
            model.source() == *source_df,
            model.frames().len() == 1,
            model.top().mode == AppMode::Grouped,
            model.top().table_view_model.selected == 0,
            model.top().table_view_model.df matches TableData::Grouped(view) && view.key_names()
                == texts_of(group_columns@) && view.extra_names() == texts_of(
                show_in_grouped_mode@,
            ) && view.groups() == groups_of(
                source_df@,
                texts_of(group_columns@),
                source_df@.height(),
            ),
            match *timeline_column {
                Some(name) => model.top().table_view_model.timeline_column matches Some(texts)
                    && forall|g: int|
                    0 <= g < texts.len() ==> (#[trigger] texts[g])@ == group_blocks(
                        source_df@,
                        groups_of(source_df@, texts_of(group_columns@), source_df@.height())[g],
                        name@,
                        table::TIMELINE_WIDTH as nat,
                    ),
                None => model.top().table_view_model.timeline_column is None,
            },
    {
        let df = source_df.group_by(group_columns, show_in_grouped_mode);
        proof {
            lemma_groups(source_df@, texts_of(group_columns@), source_df@.height());
        }
        let timeline = match timeline_column {
            Some(name) => Some(
                create_timeline_column(source_df, &df, name.as_str(), table::TIMELINE_WIDTH),
            ),
            None => None,
        };
        let root = AppState {
            table_view_model: table::ViewModel::new(TableData::Grouped(df), timeline),
            mode: AppMode::Grouped,
        };
        let mut state: Vec<AppState<'a>> = Vec::new();
        state.push(root);
        ViewModel { source_df, state }
    }

    /// The current level.
    pub fn get_current_state(&self) -> (state: &AppState<'a>)
        requires
            self.wf(),
        ensures
            *state == self.top(),
            state.wf(),
    {
        &self.state[self.state.len() - 1]
    }

    /// The number of levels.
    pub fn depth(&self) -> (n: usize)
        ensures
            n == self.frames().len(),
    {
        self.state.len()
    }

    /// Moves the selection of the current level one row up or down,
    /// wrapping at the ends.
    pub fn move_selected(&mut self, up: bool)
        requires
            old(self).wf(),
        ensures
            final(self).wf(),
            final(self).source() == old(self).source(),
            final(self).frames().len() == old(self).frames().len(),
            forall|i: int|
                0 <= i < old(self).frames().len() - 1 ==> final(self).frames()[i] == old(
                    self,
                ).frames()[i],
            final(self).top().mode == old(self).top().mode,
            final(self).top().table_view_model.df == old(self).top().table_view_model.df,
            final(self).top().table_view_model.timeline_column == old(
                self,
            ).top().table_view_model.timeline_column,
            final(self).top().table_view_model.selected == table::moved(
                old(self).top().table_view_model.selected as int,
                old(self).top().table_view_model.df.rows().len() as int,
                up,
            ),
    {
        let last = self.state.len() - 1;
        self.state[last].table_view_model.move_selected(up);
    }
}

impl<'a> ViewModel<'a> {
    /// Drills down or toggles the detail. On the groups: pushes a level
    /// with the rows that share the key tuple of the selected group, its
    /// first row selected. On such a level: shows or hides the detail of
    /// the selected row.
    pub fn focus(&mut self)
        requires
            old(self).wf(),
        ensures
            final(self).wf(),
            final(self).source() == old(self).source(),
            match old(self).top().mode {
                AppMode::Grouped => {
                    &&& final(self).frames().len() == old(self).frames().len() + 1
                    &&& final(self).frames().drop_last() == old(self).frames()
                    &&& final(self).top().mode == AppMode::Filtered(false)
                    &&& final(self).top().table_view_model.selected == 0
                    &&& final(self).top().table_view_model.timeline_column is None
                    &&& old(self).top().table_view_model.df matches TableData::Grouped(groups)
                    &&& final(self).top().table_view_model.df matches TableData::Filtered(rows)
                    &&& rows.indices() == matching_rows(
                        old(self).source()@,
                        key_filters(
                            old(self).source()@,
                            groups.key_names(),
                            groups.groups()[old(self).top().table_view_model.selected as int][0],
                        ),
                        old(self).source()@.height(),
                    )
                },
                AppMode::Filtered(focused) => {
                    &&& final(self).frames().len() == old(self).frames().len()
                    &&& final(self).frames().drop_last() == old(self).frames().drop_last()
                    &&& final(self).top().mode == AppMode::Filtered(!focused)
                    &&& final(self).top().table_view_model == old(self).top().table_view_model
                },
            },
    {
        let last = self.state.len() - 1;
        match self.state[last].mode {
            AppMode::Grouped => {
                let ghost frame = self.source()@;
                let source = self.source_df;
                let selected = self.state[last].table_view_model.selected;
                let mut filter: Vec<(String, ColumnValue)> = Vec::new();
                let ghost row: int = 0;
                let ghost keys: Seq<Seq<char>> = Seq::empty();
                match &self.state[last].table_view_model.df {
                    TableData::Grouped(groups) => {
                        let columns = groups.key_columns();
                        let representative = groups.representative(selected);
                        proof {
                            row = representative as int;
                            keys = groups.key_names();
                        }
                        let mut k: usize = 0;
                        while k < columns.len()
                            invariant
                                k <= columns.len(),
                                source.wf(),
                                frame == source@,
                                keys == texts_of(columns@),
                                all_columns(frame, keys),
                                representative < frame.height(),
                                filter.len() == k,
                                forall|j: int|
                                    0 <= j < k ==> (#[trigger] filter[j]).0@ == keys[j]
                                        && filter[j].1@ == frame.cell(keys[j], representative as int),
                            decreases columns.len() - k,
                        {
                            assert(keys[k as int] == columns[k as int]@);
                            assert(frame.has_column(keys[k as int]));
                            let value = source.get(columns[k].as_str(), representative);
                            filter.push((columns[k].clone(), value.clone()));
                            k += 1;
                        }
                    },
                    TableData::Filtered(_) => {
                        filter = unreached();
                    },
                }
                let ghost filters = key_filters(frame, keys, row);
                assert(filter.deep_view() =~= filters);
                let df = source.filter(&filter);
                proof {
                    assert(row_matches(frame, filters, row));
                    lemma_indices_where(frame.height(), |i: int| row_matches(frame, filters, i));
                    assert(df.indices().contains(row));
                }
                let ghost before = self.state@;
                self.state.push(
                    AppState {
                        table_view_model: table::ViewModel::new(TableData::Filtered(df), None),
                        mode: AppMode::Filtered(false),
                    },
                );
                assert(self.state@.drop_last() =~= before);
            },
            AppMode::Filtered(focused) => {
                let ghost before = self.state@;
                self.state[last].mode = AppMode::Filtered(!focused);
                assert(self.state@.drop_last() =~= before.drop_last());
            },
        }
    }

    /// Steps back. Hides the detail where it is shown; else leaves a level
    /// of rows for the one below it. Says whether it did anything: on the
    /// groups there is nothing to step back from.
    pub fn back(&mut self) -> (handled: bool)
        requires
            old(self).wf(),
        ensures
            final(self).wf(),
            final(self).source() == old(self).source(),
            match old(self).top().mode {
                AppMode::Grouped => !handled && final(self).frames() == old(self).frames(),
                AppMode::Filtered(true) => {
                    &&& handled
                    &&& final(self).frames().len() == old(self).frames().len()
                    &&& final(self).frames().drop_last() == old(self).frames().drop_last()
                    &&& final(self).top().mode == AppMode::Filtered(false)
                    &&& final(self).top().table_view_model == old(self).top().table_view_model
                },
                AppMode::Filtered(false) => handled && final(self).frames() == old(
                    self,
                ).frames().drop_last(),
            },
    {
        let last = self.state.len() - 1;
        match self.state[last].mode {
            AppMode::Grouped => false,
            AppMode::Filtered(focused) => {
                let ghost before = self.state@;
                if focused {
                    self.state[last].mode = AppMode::Filtered(false);
                    assert(self.state@.drop_last() =~= before.drop_last());
                } else {
                    self.state.pop();
                    assert(self.state@ =~= before.drop_last());
                }
                true
            },
        }
    }
}

/// What the user asks of the navigator.
#[derive(Clone, Copy, Debug, PartialEq, Eq, Structural)]
pub enum Command {
    MoveUp,
    MoveDown,
    Focus,
    Back,
    Quit,
}

impl<'a> ViewModel<'a> {
    /// Carries out a command and says whether the session goes on. It ends
    /// on `Quit`, and on `Back` from the groups; every other command is a
    /// move, a focus or a step back as [`ViewModel::move_selected`],
    /// [`ViewModel::focus`] and [`ViewModel::back`] do them.
    pub fn apply(&mut self, command: Command) -> (go_on: bool)
        requires
            old(self).wf(),
        ensures
            final(self).wf(),
            final(self).source() == old(self).source(),
            go_on == !(command == Command::Quit || (command == Command::Back && old(
                self,
            ).top().mode is Grouped)),
            match command {
                Command::Quit => final(self).frames() == old(self).frames(),
                Command::MoveUp | Command::MoveDown => {
                    &&& final(self).frames().len() == old(self).frames().len()
                    &&& final(self).frames().drop_last() == old(self).frames().drop_last()
                    &&& final(self).top().mode == old(self).top().mode
                    &&& final(self).top().table_view_model.df == old(self).top().table_view_model.df
                    &&& final(self).top().table_view_model.timeline_column == old(
                        self,
                    ).top().table_view_model.timeline_column
                    &&& final(self).top().table_view_model.selected == table::moved(
                        old(self).top().table_view_model.selected as int,
                        old(self).top().table_view_model.df.rows().len() as int,
                        command == Command::MoveUp,
                    )
                },
                Command::Focus => match old(self).top().mode {
                    AppMode::Grouped => {
                        &&& final(self).frames().drop_last() == old(self).frames()
                        &&& final(self).top().mode == AppMode::Filtered(false)
                        &&& final(self).top().table_view_model.selected == 0
                    },
                    AppMode::Filtered(focused) => {
                        &&& final(self).frames().drop_last() == old(self).frames().drop_last()
                        &&& final(self).top().mode == AppMode::Filtered(!focused)
                        &&& final(self).top().table_view_model == old(self).top().table_view_model
                    },
                },
                Command::Back => match old(self).top().mode {
                    AppMode::Grouped => final(self).frames() == old(self).frames(),
                    AppMode::Filtered(true) => {
                        &&& final(self).frames().drop_last() == old(self).frames().drop_last()
                        &&& final(self).top().mode == AppMode::Filtered(false)
                        &&& final(self).top().table_view_model == old(self).top().table_view_model
                    },
                    AppMode::Filtered(false) => final(self).frames() == old(
                        self,
                    ).frames().drop_last(),
                },
            },
    {
        let ghost before = self.frames();
        match command {
            Command::MoveUp => {
                self.move_selected(true);
                assert(self.frames().drop_last() =~= before.drop_last());
                true
            },
            Command::MoveDown => {
                self.move_selected(false);
                assert(self.frames().drop_last() =~= before.drop_last());
                true
            },
            Command::Focus => {
                self.focus();
                true
            },
            Command::Back => self.back(),
            Command::Quit => false,
        }
    }
}

/// What one frame of the display shows.
#[derive(Debug, PartialEq)]
pub struct Screen {
    /// The names of the columns.
    pub header: Vec<String>,
    /// The layout of the columns.
    pub widths: Vec<Constraint>,
    /// The cells of the table, row by row.
    pub contents: Vec<Vec<Cell>>,
    /// The selected row.
    pub selected: usize,
    /// The status line.
    pub footer: Footer,
    /// The rows that the status line takes.
    pub footer_height: u16,
    /// The detail card, where one is shown.
    pub card: Option<CardView>,
    /// The rows that the detail card takes, where one is shown.
    pub card_height: Option<u16>,
}

/// The label of a mode.
pub open spec fn mode_name(mode: AppMode) -> Seq<char> {
    match mode {
        AppMode::Grouped => "GROUPED"@,
        AppMode::Filtered(_) => "FILTERED"@,
    }
}

/// The record whose detail a level shows: the text of the selected row,
/// where the level is one of rows with the detail shown.
pub open spec fn detail_of(state: AppState) -> Option<Seq<char>> {
    if state.mode == AppMode::Filtered(true) {
        Some(state.table_view_model.df.raws()[state.table_view_model.selected as int])
    } else {
        None
    }
}

/// A 16-bit count of rows: the largest of them for every larger number.
pub open spec fn capped(v: nat) -> u16 {
    if v < u16::MAX {
        v as u16
    } else {
        u16::MAX
    }
}

/// What the navigator shows.
pub struct AppView<'a, 'b> {
    view_model: &'b ViewModel<'a>,
}

impl<'a, 'b> AppView<'a, 'b> {
    /// The navigator that the view draws.
    pub closed spec fn model(&self) -> ViewModel<'a> {
        *self.view_model
    }

    pub fn new(view_model: &'b ViewModel<'a>) -> (view: AppView<'a, 'b>)
        ensures
            view.model() == *view_model,
    {
        AppView { view_model }
    }

    /// One frame of the current level: its table with header, layout and
    /// selection; the status line with the mode and the position of the
    /// selection, counted from one; and the detail card of the selected
    /// record where the level shows the detail and the record is JSON.
    pub fn render(&self) -> (screen: Screen)
        requires
            self.model().wf(),
        ensures
            screen.selected == self.model().top().table_view_model.selected,
            screen.header.len() == self.model().top().table_view_model.df.names().len(),
            forall|c: int|
                0 <= c < screen.header.len() ==> (#[trigger] screen.header[c])@
                    == self.model().top().table_view_model.df.names()[c],
            screen.widths.len() == screen.header.len() + (if self.model().top().table_view_model.timeline_column is Some {
                1int
            } else {
                0int
            }),
            forall|c: int|
                0 <= c < screen.header.len() ==> #[trigger] screen.widths[c] == column_constraint(
                    self.model().top().table_view_model.df.names()[c],
                    self.model().source()@.cells[self.model().source()@.column_index(
                        self.model().top().table_view_model.df.names()[c],
                    )],
                ),
            self.model().top().table_view_model.timeline_column is Some
                ==> screen.widths[screen.header.len() as int] == Constraint::Length(
                table::TIMELINE_WIDTH,
            ),
            screen.contents.len() == self.model().top().table_view_model.df.rows().len(),
            forall|i: int|
                0 <= i < screen.contents.len() ==> row_shown(
                    self.model().top().table_view_model,
                    i,
                    (#[trigger] screen.contents[i])@,
                ),
            screen.footer.label@ == seq!['['] + mode_name(self.model().top().mode) + seq![']'],
            screen.footer.position@ == decimal_text(screen.selected + 1) + seq!['/'] + decimal_text(
                screen.contents.len() as int,
            ),
            screen.footer_height == capped(screen.footer.height as nat),
            match detail_of(self.model().top()) {
                Some(text) => match parsed_json(text) {
                    Some(record) => screen.card matches Some(card) && lines_of(card.lines@)
                        == yaml_lines(record, 0) && card.height == card_height(
                        card.lines.len() as nat,
                    ) && screen.card_height == Some(capped(card.height as nat)),
                    None => screen.card is None && screen.card_height is None,
                },
                None => screen.card is None && screen.card_height is None,
            },
    {
        let current_state = self.view_model.get_current_state();
        let row_count = current_state.table_view_model.df.len();
        let selected = current_state.table_view_model.selected;
        let footer = Footer::new(current_state.mode.get_name(), selected + 1, row_count);
        let card = match current_state.mode {
            AppMode::Filtered(true) => CardView::new(
                current_state.table_view_model.df.raw(selected).as_str(),
            ),
            _ => None,
        };
        let card_height = match &card {
            Some(card) => Some(usize_to_u16(card.get_height())),
            None => None,
        };
        let table_view = TableView::new(&current_state.table_view_model);
        let footer_height = usize_to_u16(footer.get_height());
        Screen {
            header: table_view.get_table_header(),
            widths: table_view.get_column_widths(),
            contents: table_view.get_table_contents(),
            selected,
            footer,
            footer_height,
            card,
            card_height,
        }
    }
}

/// A length as a 16-bit number, the largest of them for every longer
/// length.
pub fn usize_to_u16(v: usize) -> (r: u16)
    ensures
        r == capped(v as nat),
{
    if v < u16::MAX as usize {
        v as u16
    } else {
        u16::MAX
    }
}

} // verus!
