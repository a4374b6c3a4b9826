use group::io::columns::Column;
use group::io::dataframe::MaterializedDataFrame;
use group::io::value::{ColumnValue, Timestamp};
use group::ui::timeline::{
    bin_index, create_timeline_column, create_timeline_grid, glyph_for, render_group_blocks,
    render_group_timeline,
};
use indexmap::IndexMap;

fn at(secs: i64, nanos: u32) -> Timestamp {
    Timestamp::new(secs, nanos).unwrap()
}

fn instant(secs: i64) -> ColumnValue {
    ColumnValue::DateTime(at(secs, 0))
}

fn time_column(values: Vec<ColumnValue>) -> Column {
    Column { name: String::from("time"), values }
}

fn timed_store(column: &str) -> MaterializedDataFrame {
    let mut columns = IndexMap::new();
    columns.insert(
        String::from("who"),
        Column {
            name: String::from("who"),
            values: vec![
                ColumnValue::Integer(1),
                ColumnValue::Integer(2),
                ColumnValue::Integer(1),
                ColumnValue::Integer(3),
            ],
        },
    );
    columns.insert(
        String::from(column),
        Column {
            name: String::from(column),
            values: vec![instant(0), instant(31), ColumnValue::Absent, ColumnValue::Absent],
        },
    );
    MaterializedDataFrame::new(columns, vec![String::new(); 4])
}

#[test]
fn grid_of_a_column_without_timestamps_is_empty() {
    let column = time_column(vec![ColumnValue::Absent, ColumnValue::Integer(5)]);
    assert!(create_timeline_grid(&column, 32).is_empty());
    assert!(create_timeline_grid(&time_column(vec![]), 2).is_empty());
}

#[test]
fn grid_of_one_instant_repeats_it() {
    let column = time_column(vec![instant(7), ColumnValue::Absent, instant(7)]);
    assert_eq!(create_timeline_grid(&column, 4), vec![at(7, 0); 4]);
}

#[test]
fn grid_steps_evenly_from_the_earliest_on() {
    let column = time_column(vec![instant(40), ColumnValue::Absent, instant(10), instant(25)]);
    assert_eq!(create_timeline_grid(&column, 4), vec![at(10, 0), at(20, 0), at(30, 0), at(40, 0)]);
    assert_eq!(create_timeline_grid(&column, 2), vec![at(10, 0), at(40, 0)]);
}

#[test]
fn grid_steps_are_rounded_down_to_the_nanosecond() {
    let column = time_column(vec![
        ColumnValue::DateTime(at(-1, 999_999_999)),
        ColumnValue::DateTime(at(0, 9)),
    ]);
    assert_eq!(
        create_timeline_grid(&column, 4),
        vec![at(-1, 999_999_999), at(0, 2), at(0, 5), at(0, 8)]
    );
}

#[test]
fn bin_is_the_last_grid_point_not_after_the_instant() {
    let grid = vec![at(10, 0), at(20, 0), at(30, 0)];
    assert_eq!(bin_index(&grid, &at(10, 0)), 0);
    assert_eq!(bin_index(&grid, &at(19, 999_999_999)), 0);
    assert_eq!(bin_index(&grid, &at(20, 0)), 1);
    assert_eq!(bin_index(&grid, &at(99, 0)), 2);
    assert_eq!(bin_index(&grid, &at(9, 0)), 0);
    assert_eq!(bin_index(&vec![], &at(9, 0)), 0);
    let flat = vec![at(5, 0), at(5, 0), at(5, 0)];
    assert_eq!(bin_index(&flat, &at(5, 0)), 2);
}

#[test]
fn glyphs_grow_with_the_fill_level() {
    let glyphs: String = (0..10).map(glyph_for).collect();
    assert_eq!(glyphs, " ▏▎▍▌▋▊▉██");
}

#[test]
fn timeline_shows_the_last_occupied_slot_of_each_run() {
    let column = time_column((0..16).map(instant).collect());
    let grid = create_timeline_grid(&column, 16);
    assert_eq!(render_group_timeline(&column, &vec![0, 1, 2], &grid, 2, 8), "▍ ");
    assert_eq!(render_group_timeline(&column, &vec![2], &grid, 2, 8), "▍ ");
    assert_eq!(render_group_timeline(&column, &vec![7, 8], &grid, 2, 8), "█▏");
    assert_eq!(render_group_timeline(&column, &vec![15, 0], &grid, 2, 8), "▏█");
    assert_eq!(render_group_timeline(&column, &vec![], &grid, 2, 8), "  ");
    assert_eq!(render_group_timeline(&column, &vec![0, 5, 11], &grid, 4, 4), "▏▎▌ ");
    assert_eq!(render_group_timeline(&column, &vec![0, 9], &grid, 0, 8), "");
    assert_eq!(render_group_timeline(&column, &vec![3], &grid, 1, 16), "▌");
    assert_eq!(render_group_timeline(&column, &vec![9], &grid, 1, 16), "█");
}

#[test]
fn timeline_is_blank_where_no_row_holds_a_timestamp() {
    let column = time_column(vec![ColumnValue::Absent, ColumnValue::Integer(1), instant(3)]);
    let grid = create_timeline_grid(&column, 8);
    assert_eq!(render_group_timeline(&column, &vec![0, 1], &grid, 4, 2), "    ");
    assert_eq!(render_group_blocks(&column, &vec![0, 1], &grid, 8), "        ");
    let plain = time_column(vec![ColumnValue::Absent, ColumnValue::Integer(1)]);
    let empty = create_timeline_grid(&plain, 8);
    assert!(empty.is_empty());
    assert_eq!(render_group_timeline(&plain, &vec![0, 1], &empty, 5, 8), "     ");
    assert_eq!(render_group_blocks(&plain, &vec![0, 1], &empty, 3), "   ");
}

#[test]
fn blocks_mark_every_occupied_slot() {
    let column = time_column((0..8).map(instant).collect());
    let grid = create_timeline_grid(&column, 8);
    assert_eq!(render_group_blocks(&column, &vec![0, 3, 4, 7], &grid, 8), "█  ██  █");
    assert_eq!(render_group_blocks(&column, &vec![7], &grid, 4), "    ");
}

#[test]
fn group_timeline_reads_the_column_called_time() {
    let df = timed_store("time");
    let keys = vec![String::from("who")];
    let extra: Vec<String> = vec![];
    let groups = df.group_by(&keys, &extra);
    assert_eq!(groups.timeline(0, 4), "▏   ");
    assert_eq!(groups.timeline(1, 4), "   █");
    assert_eq!(groups.timeline(2, 4), "    ");
    assert_eq!(groups.timeline(1, 1), "█");
    let other = timed_store("when");
    let untimed = other.group_by(&keys, &extra);
    assert_eq!(untimed.timeline(0, 4), "");
}

#[test]
fn timeline_column_has_a_text_per_group() {
    let df = timed_store("when");
    let keys = vec![String::from("who")];
    let extra: Vec<String> = vec![];
    let groups = df.group_by(&keys, &extra);
    assert_eq!(
        create_timeline_column(&df, &groups, "when", 4),
        vec![String::from("█   "), String::from("   █"), String::from("    ")]
    );
    assert_eq!(
        create_timeline_column(&df, &groups, "missing", 4),
        vec![String::new(), String::new(), String::new()]
    );
    assert_eq!(
        create_timeline_column(&df, &groups, "who", 2),
        vec![String::from("  "), String::from("  "), String::from("  ")]
    );
}
