use group::io::columns::Column;
use group::io::dataframe::{DataFrame, MaterializedDataFrame};
use group::io::value::ColumnValue;
use group::io::input::{extract_integer_from_json, extract_string_from_json};
use group::io::json::{JsonNumber, JsonValue};
use group::ui::app::{AppMode, Command, ViewModel};
use group::ui::table::TableData;
use indexmap::IndexMap;

fn text(s: &str) -> ColumnValue {
    ColumnValue::String(String::from(s))
}

fn sample_store() -> MaterializedDataFrame {
    let mut columns = IndexMap::new();
    columns.insert(
        String::from("name"),
        Column { name: String::from("name"), values: vec![text("a"), text("a"), text("b")] },
    );
    columns.insert(
        String::from("value"),
        Column {
            name: String::from("value"),
            values: vec![ColumnValue::Integer(1), ColumnValue::Integer(2), ColumnValue::Integer(3)],
        },
    );
    let raw = vec![String::from("{}"), String::from("{}"), String::from("{}")];
    MaterializedDataFrame::new(columns, raw)
}

#[test]
fn group_by_keeps_first_occurrence_order() {
    let store = sample_store();
    let keys = vec![String::from("name")];
    let extra = vec![String::from("value")];
    let groups = store.group_by(&keys, &extra);
    assert_eq!(groups.len(), 2);
    assert_eq!(groups.group_indices(0), &vec![0, 1]);
    assert_eq!(groups.group_indices(1), &vec![2]);
    assert_eq!(groups.row(0), vec![text("a"), ColumnValue::Integer(1)]);
    assert_eq!(groups.row(1), vec![text("b"), ColumnValue::Integer(3)]);
    assert_eq!(groups.column_names(), vec![&String::from("name"), &String::from("value")]);
}

#[test]
fn focus_pushes_the_rows_of_the_selected_group_and_back_pops_them() {
    let store = sample_store();
    let keys = vec![String::from("name")];
    let extra = vec![String::from("value")];
    let timeline = None;
    let mut model = ViewModel::new(&store, &keys, &extra, &timeline);
    assert_eq!(model.depth(), 1);
    model.focus();
    assert_eq!(model.depth(), 2);
    {
        let top = model.get_current_state();
        assert_eq!(top.mode, AppMode::Filtered(false));
        assert_eq!(top.table_view_model.selected, 0);
        assert_eq!(top.table_view_model.df.len(), 2);
        match &top.table_view_model.df {
            TableData::Filtered(rows) => {
                assert_eq!(rows.source_index(0), 0);
                assert_eq!(rows.source_index(1), 1);
            }
            TableData::Grouped(_) => panic!("a level of rows was expected"),
        }
    }
    assert!(model.back());
    assert_eq!(model.depth(), 1);
    let top = model.get_current_state();
    assert_eq!(top.mode, AppMode::Grouped);
    assert_eq!(top.table_view_model.df.len(), 2);
    assert_eq!(top.table_view_model.selected, 0);
    assert!(!model.back());
}

#[test]
fn commands_drive_the_navigator_until_it_is_left() {
    let store = sample_store();
    let keys = vec![String::from("name")];
    let extra: Vec<String> = vec![];
    let timeline = None;
    let mut model = ViewModel::new(&store, &keys, &extra, &timeline);
    assert!(model.apply(Command::MoveDown));
    assert_eq!(model.get_current_state().table_view_model.selected, 1);
    assert!(model.apply(Command::MoveDown));
    assert_eq!(model.get_current_state().table_view_model.selected, 0);
    assert!(model.apply(Command::MoveUp));
    assert_eq!(model.get_current_state().table_view_model.selected, 1);
    assert!(model.apply(Command::Focus));
    assert_eq!(model.depth(), 2);
    assert_eq!(model.get_current_state().table_view_model.df.len(), 1);
    assert!(model.apply(Command::MoveUp));
    assert_eq!(model.get_current_state().table_view_model.selected, 0);
    assert!(model.apply(Command::Focus));
    assert_eq!(model.get_current_state().mode, AppMode::Filtered(true));
    assert!(model.apply(Command::Back));
    assert_eq!(model.get_current_state().mode, AppMode::Filtered(false));
    assert!(model.apply(Command::Back));
    assert_eq!(model.depth(), 1);
    assert_eq!(model.get_current_state().table_view_model.selected, 1);
    assert!(!model.apply(Command::Back));
    assert!(!model.apply(Command::Quit));
    assert_eq!(model.depth(), 1);
}

#[test]
fn early_extractors_read_one_kind_each() {
    assert_eq!(
        extract_integer_from_json(&JsonValue::Number(JsonNumber::Integer(4))),
        Ok(ColumnValue::Integer(4))
    );
    assert_eq!(
        extract_integer_from_json(&JsonValue::Number(JsonNumber::Other(String::from("4.5")))),
        Err("value is not integer")
    );
    assert_eq!(extract_integer_from_json(&JsonValue::Null), Err("value is not a number"));
    assert_eq!(extract_string_from_json(&JsonValue::String(String::from("s"))), Ok(text("s")));
    assert_eq!(extract_string_from_json(&JsonValue::Bool(true)), Err("value is not a string"));
}
