use group::io::columns::Column;
use group::io::dataframe::MaterializedDataFrame;
use group::io::json::{JsonNumber, JsonValue};
use group::io::value::{ColumnValue, Timestamp};
use group::text::split;
use group::ui::app::{usize_to_u16, AppMode, AppView, ViewModel};
use group::ui::card::{colored_text, colored_text_ref, to_colored_yaml, CardView, Span};
use group::ui::colorizer::colorize_rgb;
use group::ui::footer::Footer;
use group::ui::style::Color;
use group::ui::table::{
    column_width, get_column_value_width, Cell, Constraint, TableData, TableView,
    MAX_STRING_WIDTH, TIMELINE_WIDTH,
};
use indexmap::IndexMap;

fn word(s: &str) -> ColumnValue {
    ColumnValue::String(String::from(s))
}

fn pad(n: usize) -> Span {
    Span { text: " ".repeat(n), color: None }
}

fn paint(text: &str, color: Color) -> Span {
    Span { text: String::from(text), color: Some(color) }
}

fn store() -> MaterializedDataFrame {
    let mut columns = IndexMap::new();
    columns.insert(
        String::from("name"),
        Column { name: String::from("name"), values: vec![word("a"), word("a"), word("b")] },
    );
    columns.insert(
        String::from("value"),
        Column {
            name: String::from("value"),
            values: vec![ColumnValue::Integer(1), ColumnValue::Integer(2), ColumnValue::Integer(3)],
        },
    );
    columns.insert(
        String::from("at"),
        Column {
            name: String::from("at"),
            values: vec![
                ColumnValue::DateTime(Timestamp::new(0, 0).unwrap()),
                ColumnValue::DateTime(Timestamp::new(31, 0).unwrap()),
                ColumnValue::Absent,
            ],
        },
    );
    let raw = vec![
        String::from("{\n  \"name\": \"a\",\n  \"value\": 1\n}"),
        String::from("{\n  \"name\": \"a\",\n  \"value\": 2\n}"),
        String::from("not json"),
    ];
    MaterializedDataFrame::new(columns, raw)
}

#[test]
fn mode_names() {
    assert_eq!(AppMode::Grouped.get_name(), "GROUPED");
    assert_eq!(AppMode::Filtered(false).get_name(), "FILTERED");
    assert_eq!(AppMode::Filtered(true).get_name(), "FILTERED");
}

#[test]
fn lengths_are_capped_at_sixteen_bits() {
    assert_eq!(usize_to_u16(0), 0);
    assert_eq!(usize_to_u16(65_534), 65_534);
    assert_eq!(usize_to_u16(65_535), 65_535);
    assert_eq!(usize_to_u16(65_536), 65_535);
    assert_eq!(usize_to_u16(usize::MAX), 65_535);
}

#[test]
fn widths_of_values() {
    assert_eq!(get_column_value_width(&ColumnValue::Boolean(true)), 1);
    assert_eq!(get_column_value_width(&ColumnValue::Absent), 1);
    assert_eq!(get_column_value_width(&word("")), 0);
    assert_eq!(get_column_value_width(&word("héllo")), 6);
    assert_eq!(get_column_value_width(&ColumnValue::Integer(5)), 16);
    assert_eq!(get_column_value_width(&ColumnValue::DateTime(Timestamp::new(0, 0).unwrap())), 12);
}

#[test]
fn a_column_is_as_wide_as_its_name_or_its_widest_value() {
    let short = Column { name: String::from("c"), values: vec![word("ab"), ColumnValue::Absent] };
    assert_eq!(column_width("c", &short), Constraint::Length(2));
    assert_eq!(column_width("longer name", &short), Constraint::Length(11));
    let numbers = Column { name: String::from("n"), values: vec![ColumnValue::Integer(1)] };
    assert_eq!(column_width("n", &numbers), Constraint::Length(16));
    let wide = Column { name: String::from("w"), values: vec![word(&"x".repeat(31))] };
    assert_eq!(column_width("w", &wide), Constraint::Length(31));
    let wider = Column { name: String::from("w"), values: vec![word(&"x".repeat(32))] };
    assert_eq!(column_width("w", &wider), Constraint::Min(MAX_STRING_WIDTH));
    let empty = Column { name: String::from("e"), values: vec![] };
    assert_eq!(column_width("", &empty), Constraint::Length(0));
}

#[test]
fn footer_shows_mode_and_position() {
    let footer = Footer::new("GROUPED", 3, 120);
    assert_eq!(footer.label, "[GROUPED]");
    assert_eq!(footer.position, "3/120");
    assert_eq!(footer.get_height(), 1);
    assert_eq!(footer.line(), "  [GROUPED]  3/120");
}

#[test]
fn split_cuts_at_every_separator() {
    assert_eq!(split("a.b.c", '.'), vec!["a", "b", "c"]);
    assert_eq!(split("", '.'), vec![""]);
    assert_eq!(split(".a..", '.'), vec!["", "a", "", ""]);
    assert_eq!(split("no dots", '.'), vec!["no dots"]);
}

#[test]
fn card_lines_of_plain_values() {
    assert_eq!(
        to_colored_yaml(&JsonValue::Bool(true)),
        vec![vec![pad(0), paint("true", Color::LightCyan)]]
    );
    assert_eq!(
        to_colored_yaml(&JsonValue::Bool(false)),
        vec![vec![pad(0), paint("false", Color::LightCyan)]]
    );
    assert_eq!(
        to_colored_yaml(&JsonValue::Number(JsonNumber::Integer(-12))),
        vec![vec![pad(0), paint("-12", Color::LightCyan)]]
    );
    assert_eq!(
        to_colored_yaml(&JsonValue::Number(JsonNumber::Other(String::from("0.5")))),
        vec![vec![pad(0), paint("0.5", Color::LightCyan)]]
    );
    assert_eq!(
        to_colored_yaml(&JsonValue::Null),
        vec![vec![pad(0), paint("null", Color::LightCyan)]]
    );
    assert_eq!(
        to_colored_yaml(&JsonValue::Array(vec![JsonValue::Null])),
        vec![vec![pad(0), paint("[]", Color::Yellow)]]
    );
    assert_eq!(
        to_colored_yaml(&JsonValue::Object(vec![])),
        vec![vec![pad(0), paint("{}", Color::Yellow)]]
    );
    assert_eq!(
        to_colored_yaml(&JsonValue::String(String::new())),
        vec![vec![pad(0), paint("\"\"", Color::LightGreen)]]
    );
    assert_eq!(
        to_colored_yaml(&JsonValue::String(String::from("one line"))),
        vec![vec![pad(0), paint("one line", Color::LightGreen)]]
    );
    assert_eq!(
        to_colored_yaml(&JsonValue::String(String::from("two\nlines"))),
        vec![
            vec![pad(0), paint("|", Color::Yellow)],
            vec![pad(0), paint("two", Color::LightGreen)],
            vec![pad(0), paint("lines", Color::LightGreen)],
        ]
    );
}

#[test]
fn card_lines_of_nested_objects() {
    let record = JsonValue::Object(vec![
        (String::from("id"), JsonValue::Number(JsonNumber::Integer(7))),
        (
            String::from("inner"),
            JsonValue::Object(vec![
                (String::from("note"), JsonValue::String(String::from("a\nb"))),
                (String::from("none"), JsonValue::Object(vec![])),
            ]),
        ),
        (String::from("list"), JsonValue::Array(vec![])),
    ]);
    assert_eq!(
        to_colored_yaml(&record),
        vec![
            vec![pad(0), paint("id", Color::Red), paint(": ", Color::Yellow), paint("7", Color::LightCyan)],
            vec![pad(0), paint("inner", Color::Red), paint(": ", Color::Yellow)],
            vec![pad(2), paint("note", Color::Red), paint(": ", Color::Yellow), paint("|", Color::Yellow)],
            vec![pad(4), paint("a", Color::LightGreen)],
            vec![pad(4), paint("b", Color::LightGreen)],
            vec![pad(2), paint("none", Color::Red), paint(": ", Color::Yellow), paint("{}", Color::Yellow)],
            vec![pad(0), paint("list", Color::Red), paint(": ", Color::Yellow), paint("[]", Color::Yellow)],
        ]
    );
    assert_eq!(colored_text(String::from("t"), Color::Red), paint("t", Color::Red));
    assert_eq!(colored_text_ref("t", Color::Yellow), paint("t", Color::Yellow));
}

#[test]
fn card_of_a_record_text() {
    let card = CardView::new("{\"b\": null, \"a\": {\"c\": 1}}").unwrap();
    assert_eq!(
        card.lines,
        vec![
            vec![pad(0), paint("a", Color::Red), paint(": ", Color::Yellow)],
            vec![pad(2), paint("c", Color::Red), paint(": ", Color::Yellow), paint("1", Color::LightCyan)],
            vec![pad(0), paint("b", Color::Red), paint(": ", Color::Yellow), paint("null", Color::LightCyan)],
        ]
    );
    assert_eq!(card.get_height(), 4);
    assert_eq!(CardView::new("{"), None);
    assert_eq!(CardView::from_json(&JsonValue::Null).height, 2);
}

#[test]
fn table_of_the_groups_shows_key_and_extra_columns_with_timelines() {
    let df = store();
    let keys = vec![String::from("name")];
    let extra = vec![String::from("value")];
    let timeline = Some(String::from("at"));
    let model = ViewModel::new(&df, &keys, &extra, &timeline);
    let state = model.get_current_state();
    let table = TableView::new(&state.table_view_model);
    assert_eq!(table.get_table_header(), vec![String::from("name"), String::from("value")]);
    assert_eq!(
        table.get_column_widths(),
        vec![Constraint::Length(4), Constraint::Length(16), Constraint::Length(TIMELINE_WIDTH)]
    );
    let blank = " ".repeat(32);
    let first = format!("█{}█", " ".repeat(30));
    assert_eq!(
        table.get_table_contents(),
        vec![
            vec![
                Cell { text: String::from("a"), color: Some(colorize_rgb(&word("a"))) },
                Cell {
                    text: String::from("1"),
                    color: Some(colorize_rgb(&ColumnValue::Integer(1))),
                },
                Cell { text: first, color: None },
            ],
            vec![
                Cell { text: String::from("b"), color: Some(colorize_rgb(&word("b"))) },
                Cell {
                    text: String::from("3"),
                    color: Some(colorize_rgb(&ColumnValue::Integer(3))),
                },
                Cell { text: blank, color: None },
            ],
        ]
    );
    assert_eq!(state.table_view_model.selected_row(), vec![&word("a"), &ColumnValue::Integer(1)]);
}

#[test]
fn render_follows_the_navigation() {
    let df = store();
    let keys = vec![String::from("name")];
    let extra: Vec<String> = vec![];
    let timeline = None;
    let mut model = ViewModel::new(&df, &keys, &extra, &timeline);
    {
        let screen = AppView::new(&model).render();
        assert_eq!(screen.header, vec![String::from("name")]);
        assert_eq!(screen.widths, vec![Constraint::Length(4)]);
        assert_eq!(screen.contents.len(), 2);
        assert_eq!(screen.selected, 0);
        assert_eq!(screen.footer.line(), "  [GROUPED]  1/2");
        assert_eq!(screen.footer_height, 1);
        assert_eq!(screen.card, None);
        assert_eq!(screen.card_height, None);
    }
    model.move_selected(true);
    assert_eq!(model.get_current_state().table_view_model.selected, 1);
    model.move_selected(false);
    assert_eq!(model.get_current_state().table_view_model.selected, 0);
    model.focus();
    model.move_selected(false);
    {
        let screen = AppView::new(&model).render();
        assert_eq!(
            screen.header,
            vec![String::from("name"), String::from("value"), String::from("at")]
        );
        assert_eq!(
            screen.widths,
            vec![Constraint::Length(4), Constraint::Length(16), Constraint::Length(12)]
        );
        assert_eq!(screen.contents.len(), 2);
        assert_eq!(screen.contents[1][2].text, "00:00:31.000");
        assert_eq!(screen.selected, 1);
        assert_eq!(screen.footer.line(), "  [FILTERED]  2/2");
        assert_eq!(screen.card, None);
    }
    model.focus();
    assert_eq!(model.get_current_state().mode, AppMode::Filtered(true));
    {
        let screen = AppView::new(&model).render();
        let card = screen.card.unwrap();
        assert_eq!(
            card.lines,
            vec![
                vec![pad(0), paint("name", Color::Red), paint(": ", Color::Yellow), paint("a", Color::LightGreen)],
                vec![pad(0), paint("value", Color::Red), paint(": ", Color::Yellow), paint("2", Color::LightCyan)],
            ]
        );
        assert_eq!(screen.card_height, Some(3));
    }
    model.focus();
    assert_eq!(model.get_current_state().mode, AppMode::Filtered(false));
    model.focus();
    assert!(model.back());
    assert_eq!(model.depth(), 2);
    assert_eq!(model.get_current_state().mode, AppMode::Filtered(false));
    assert_eq!(model.get_current_state().table_view_model.selected, 1);
    assert!(model.back());
    assert_eq!(model.depth(), 1);
    assert!(!model.back());
    assert_eq!(model.depth(), 1);
}

#[test]
fn a_record_that_is_no_json_has_no_card() {
    let df = store();
    let keys = vec![String::from("name")];
    let extra: Vec<String> = vec![];
    let timeline = None;
    let mut model = ViewModel::new(&df, &keys, &extra, &timeline);
    model.move_selected(false);
    model.focus();
    model.focus();
    let screen = AppView::new(&model).render();
    assert_eq!(screen.footer.line(), "  [FILTERED]  1/1");
    assert_eq!(screen.card, None);
    assert_eq!(screen.card_height, None);
    match &model.get_current_state().table_view_model.df {
        TableData::Filtered(rows) => assert_eq!(rows.source_index(0), 2),
        TableData::Grouped(_) => panic!("a level of rows was expected"),
    }
}
