use chrono::NaiveDate;
use group::configuration::{InputAttributeSpec, InputAttributeType, InputSpec};
use group::io::columns::Column;
use group::io::dataframe::{MaterializedDataFrame, StoreError};
use group::io::input::{
    build_dataframe, extract_column, extract_column_value, make_instant, read_dataframe,
    ExtractError, LoadError,
};
use group::io::json::{to_pretty_json, JsonNumber, JsonValue};
use group::io::value::{ColumnValue, Timestamp};
use indexmap::IndexMap;

fn simple_dataframe(column_name: &str, rows: Vec<(ColumnValue, &str)>) -> MaterializedDataFrame {
    let mut values = Vec::new();
    let mut raw = Vec::new();
    for (value, serialized) in rows {
        values.push(value);
        raw.push(String::from(serialized));
    }
    let mut columns = IndexMap::new();
    columns.insert(String::from(column_name), Column { name: String::from(column_name), values });
    MaterializedDataFrame::new(columns, raw)
}

fn simple_spec(column_name: &str) -> InputSpec {
    InputSpec {
        attrs: vec![InputAttributeSpec {
            name: String::from(column_name),
            attr_type: InputAttributeType::String,
        }],
        group_by: vec![String::from(column_name)],
        show_in_grouped: vec![],
        timeline_column: None,
    }
}

fn datetime_value(y: i32, m: u32, d: u32, h: u32, min: u32, s: u32, ms: u32) -> ColumnValue {
    let instant = NaiveDate::from_ymd_opt(y, m, d)
        .unwrap()
        .and_hms_milli_opt(h, min, s, ms)
        .unwrap()
        .and_utc();
    ColumnValue::DateTime(
        Timestamp::new(instant.timestamp(), instant.timestamp_subsec_nanos()).unwrap(),
    )
}

fn integer_value(i: i64) -> ColumnValue {
    ColumnValue::Integer(i)
}

fn string_value(s: &str) -> ColumnValue {
    ColumnValue::String(String::from(s))
}

#[test]
fn read_dataframe_parses_integer_column() {
    let input = "{\"int\": 10}\n{\"int\": 20}\n";
    let spec = simple_spec("int");
    let expected = simple_dataframe(
        "int",
        vec![
            (integer_value(10), "{\n  \"int\": 10\n}"),
            (integer_value(20), "{\n  \"int\": 20\n}"),
        ],
    );
    let actual = read_dataframe(input, &spec.attribute_names(), false);
    assert_eq!(Some(expected), actual.ok());
}

#[test]
fn read_dataframe_parses_datetime_column() {
    let input = "{\"d\": \"2022-01-05T00:50:03.432Z\"}\n{\"d\": \"2022-01-05T00:50:05Z\"}";
    let spec = simple_spec("d");
    let expected = simple_dataframe(
        "d",
        vec![
            (datetime_value(2022, 1, 5, 0, 50, 3, 432), "{\n  \"d\": \"2022-01-05T00:50:03.432Z\"\n}"),
            (datetime_value(2022, 1, 5, 0, 50, 5, 0), "{\n  \"d\": \"2022-01-05T00:50:05Z\"\n}"),
        ],
    );
    let actual = read_dataframe(input, &spec.attribute_names(), false);
    assert_eq!(Some(expected), actual.ok());
}

#[test]
fn read_dataframe_converts_datetime_to_utc() {
    let input = "{\"d\": \"2022-01-05T03:50:03.432+03:00\"}";
    let spec = simple_spec("d");
    let expected = simple_dataframe(
        "d",
        vec![(
            datetime_value(2022, 1, 5, 0, 50, 3, 432),
            "{\n  \"d\": \"2022-01-05T03:50:03.432+03:00\"\n}",
        )],
    );
    let actual = read_dataframe(input, &spec.attribute_names(), false);
    assert_eq!(Some(expected), actual.ok());
}

#[test]
fn read_dataframe_parses_string_column() {
    let input = "{\"s\": \"hello\"}\n{\"s\": \"world\"}\n";
    let spec = simple_spec("s");
    let expected = simple_dataframe(
        "s",
        vec![
            (string_value("hello"), "{\n  \"s\": \"hello\"\n}"),
            (string_value("world"), "{\n  \"s\": \"world\"\n}"),
        ],
    );
    let actual = read_dataframe(input, &spec.attribute_names(), false);
    assert_eq!(Some(expected), actual.ok());
}

#[test]
fn read_dataframe_parses_column_with_missing_values() {
    let input = "{\"s\": \"hello\"}\n{}\n";
    let spec = simple_spec("s");
    let expected = simple_dataframe(
        "s",
        vec![(string_value("hello"), "{\n  \"s\": \"hello\"\n}"), (ColumnValue::Absent, "{}")],
    );
    let actual = read_dataframe(input, &spec.attribute_names(), false);
    assert_eq!(Some(expected), actual.ok());
}

#[test]
fn read_dataframe_parses_integer_column_when_reading_single_object() {
    let input = "[{\"int\": 10}, {\"int\": 20}]";
    let spec = simple_spec("int");
    let expected = simple_dataframe(
        "int",
        vec![
            (integer_value(10), "{\n  \"int\": 10\n}"),
            (integer_value(20), "{\n  \"int\": 20\n}"),
        ],
    );
    let actual = read_dataframe(input, &spec.attribute_names(), true);
    assert_eq!(Some(expected), actual.ok());
}

#[test]
fn read_dataframe_parses_string_column_when_reading_single_object() {
    let input = "[{\"s\": \"hello\"}, {\"s\": \"world\"}]";
    let spec = simple_spec("s");
    let expected = simple_dataframe(
        "s",
        vec![
            (string_value("hello"), "{\n  \"s\": \"hello\"\n}"),
            (string_value("world"), "{\n  \"s\": \"world\"\n}"),
        ],
    );
    let actual = read_dataframe(input, &spec.attribute_names(), true);
    assert_eq!(Some(expected), actual.ok());
}

#[test]
fn read_dataframe_parses_datetime_column_when_readin_single_object() {
    let input = "[{\"d\": \"2022-01-05T00:50:03.432Z\"}, {\"d\": \"2022-01-05T00:50:05Z\"}]";
    let spec = simple_spec("d");
    let expected = simple_dataframe(
        "d",
        vec![
            (datetime_value(2022, 1, 5, 0, 50, 3, 432), "{\n  \"d\": \"2022-01-05T00:50:03.432Z\"\n}"),
            (datetime_value(2022, 1, 5, 0, 50, 5, 0), "{\n  \"d\": \"2022-01-05T00:50:05Z\"\n}"),
        ],
    );
    let actual = read_dataframe(input, &spec.attribute_names(), true);
    assert_eq!(Some(expected), actual.ok());
}

#[test]
fn read_dataframe_parses_column_with_missing_values_when_reading_single_object() {
    let input = "[{\"s\": \"hello\"}, {}]";
    let spec = simple_spec("s");
    let expected = simple_dataframe(
        "s",
        vec![(string_value("hello"), "{\n  \"s\": \"hello\"\n}"), (ColumnValue::Absent, "{}")],
    );
    let actual = read_dataframe(input, &spec.attribute_names(), true);
    assert_eq!(Some(expected), actual.ok());
}

#[test]
fn read_dataframe_rejects_text_that_is_not_json() {
    let names = vec![String::from("a")];
    assert_eq!(read_dataframe("{\"a\": ", &names, false).err(), Some(LoadError::InvalidJson));
    assert_eq!(read_dataframe("{\"a\": 1}", &names, true).err(), Some(LoadError::InvalidJson));
    assert_eq!(read_dataframe("not json", &names, true).err(), Some(LoadError::InvalidJson));
}

#[test]
fn read_dataframe_reports_the_first_value_that_is_no_cell() {
    let names = vec![String::from("a"), String::from("b")];
    let input = "{\"a\": 1, \"b\": 2}\n{\"a\": 1.5, \"b\": [1]}\n{\"a\": {}}";
    assert_eq!(
        read_dataframe(input, &names, false).err(),
        Some(LoadError::Extract {
            attribute: String::from("a"),
            record: 1,
            value: String::from("1.5"),
            reason: ExtractError::NotInteger,
        })
    );
    let only_b = vec![String::from("b")];
    assert_eq!(
        read_dataframe(input, &only_b, false).err(),
        Some(LoadError::Extract {
            attribute: String::from("b"),
            record: 1,
            value: String::from("[1]"),
            reason: ExtractError::Unsupported,
        })
    );
}

#[test]
fn read_dataframe_needs_a_column_and_a_row() {
    let none: Vec<String> = vec![];
    assert_eq!(
        read_dataframe("{\"a\": 1}", &none, false).err(),
        Some(LoadError::Store(StoreError::NoColumns))
    );
    let names = vec![String::from("a")];
    assert_eq!(
        read_dataframe("", &names, false).err(),
        Some(LoadError::Store(StoreError::NoRows))
    );
    assert_eq!(
        read_dataframe("[]", &names, true).err(),
        Some(LoadError::Store(StoreError::NoRows))
    );
}

#[test]
fn read_dataframe_follows_dotted_names_into_objects() {
    let names = vec![String::from("a.b"), String::from("a"), String::from("a.b.c")];
    let input = "{\"a\": {\"b\": true}}\n{\"a\": null}\n{\"z\": 1}";
    let df = read_dataframe(input, &names[0..1], false).unwrap();
    assert_eq!(
        df.column("a.b").unwrap().values,
        vec![ColumnValue::Boolean(true), ColumnValue::Absent, ColumnValue::Absent]
    );
    assert_eq!(
        read_dataframe(input, &names[1..2], false).err(),
        Some(LoadError::Extract {
            attribute: String::from("a"),
            record: 0,
            value: String::from("{\"b\":true}"),
            reason: ExtractError::Unsupported,
        })
    );
    let deep = read_dataframe(input, &names[2..3], false).unwrap();
    assert_eq!(
        deep.column("a.b.c").unwrap().values,
        vec![ColumnValue::Absent, ColumnValue::Absent, ColumnValue::Absent]
    );
}

#[test]
fn an_attribute_named_twice_keeps_one_column_in_its_first_place() {
    let names = vec![String::from("a"), String::from("b"), String::from("a")];
    let records = vec![JsonValue::Object(vec![
        (String::from("a"), JsonValue::Bool(true)),
        (String::from("b"), JsonValue::Null),
    ])];
    let df = build_dataframe(&records, &names).unwrap();
    let mut columns = IndexMap::new();
    columns.insert(
        String::from("a"),
        Column { name: String::from("a"), values: vec![ColumnValue::Boolean(true)] },
    );
    columns.insert(
        String::from("b"),
        Column { name: String::from("b"), values: vec![ColumnValue::Absent] },
    );
    let raw = vec![String::from("{\n  \"a\": true,\n  \"b\": null\n}")];
    assert_eq!(df, MaterializedDataFrame::new(columns, raw));
}

#[test]
fn extract_column_value_reads_every_kind_of_value() {
    assert_eq!(extract_column_value(&JsonValue::Bool(false)), Ok(ColumnValue::Boolean(false)));
    assert_eq!(
        extract_column_value(&JsonValue::Number(JsonNumber::Integer(-7))),
        Ok(ColumnValue::Integer(-7))
    );
    assert_eq!(
        extract_column_value(&JsonValue::Number(JsonNumber::Other(String::from("1e400")))),
        Err(ExtractError::NotInteger)
    );
    assert_eq!(
        extract_column_value(&JsonValue::String(String::from("1970-01-01T00:00:01.5Z"))),
        Ok(ColumnValue::DateTime(Timestamp::new(1, 500_000_000).unwrap()))
    );
    assert_eq!(
        extract_column_value(&JsonValue::String(String::from("1970-01-01"))),
        Ok(string_value("1970-01-01"))
    );
    assert_eq!(extract_column_value(&JsonValue::Null), Ok(ColumnValue::Absent));
    assert_eq!(extract_column_value(&JsonValue::Array(vec![])), Err(ExtractError::Unsupported));
    assert_eq!(extract_column_value(&JsonValue::Object(vec![])), Err(ExtractError::Unsupported));
}

#[test]
fn a_leap_second_counts_into_the_following_second() {
    assert_eq!(make_instant(59, 1_250_000_000), Timestamp::new(60, 250_000_000));
    assert_eq!(make_instant(59, 999_999_999), Timestamp::new(59, 999_999_999));
    assert_eq!(make_instant(8_210_266_876_799, 1_000_000_000), None);
    assert_eq!(
        extract_column_value(&JsonValue::String(String::from("2016-12-31T23:59:60.25Z"))),
        Ok(ColumnValue::DateTime(Timestamp::new(1_483_228_800, 250_000_000).unwrap()))
    );
}

#[test]
fn extract_column_takes_the_first_member_of_a_name() {
    let records = vec![JsonValue::Object(vec![
        (String::from("k"), JsonValue::Number(JsonNumber::Integer(1))),
        (String::from("k"), JsonValue::Number(JsonNumber::Integer(2))),
    ])];
    let column = extract_column("k", &records).unwrap();
    assert_eq!(column.name, "k");
    assert_eq!(column.values, vec![ColumnValue::Integer(1)]);
}

#[test]
fn to_pretty_json_orders_members_by_name() {
    let value = JsonValue::Object(vec![
        (String::from("b"), JsonValue::Number(JsonNumber::Other(String::from("2.5")))),
        (String::from("a"), JsonValue::Array(vec![JsonValue::Null, JsonValue::Bool(true)])),
    ]);
    assert_eq!(
        to_pretty_json(&value),
        "{\n  \"a\": [\n    null,\n    true\n  ],\n  \"b\": 2.5\n}"
    );
}
