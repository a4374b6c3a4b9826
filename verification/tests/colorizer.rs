use group::io::columns::Column;
use group::io::value::{ColumnValue, Timestamp};
use group::ui::colorizer::{colorize_rgb, colorize_static, hash_value, select, Colorizer};
use group::ui::style::Color;

fn word(s: &str) -> ColumnValue {
    ColumnValue::String(String::from(s))
}

fn column(values: Vec<ColumnValue>) -> Column {
    Column { name: String::from("c"), values }
}

fn channels(color: Color) -> (u8, u8, u8) {
    match color {
        Color::Rgb(r, g, b) => (r, g, b),
        other => panic!("a colour by content was expected, not {:?}", other),
    }
}

#[test]
fn one_distinct_value_gives_every_value_the_same_colour() {
    let colorizer = select(&column(vec![word("a"), ColumnValue::Absent, word("a")]));
    assert_eq!(colorizer, Colorizer::Static);
    assert_eq!(colorizer.apply(&word("a")), Color::White);
    assert_eq!(colorizer.apply(&ColumnValue::Absent), Color::White);
    assert_eq!(colorizer.apply(&word("never seen")), Color::White);
    assert_eq!(colorize_static(&ColumnValue::Integer(3)), Color::White);
}

#[test]
fn no_value_or_only_absent_values_give_the_constant_colour() {
    assert_eq!(select(&column(vec![])), Colorizer::Static);
    assert_eq!(select(&column(vec![ColumnValue::Absent, ColumnValue::Absent])), Colorizer::Static);
}

#[test]
fn two_distinct_values_get_two_colours_that_do_not_change() {
    let values = column(vec![word("a"), word("b"), ColumnValue::Absent, word("a")]);
    let colorizer = select(&values);
    assert_eq!(colorizer, Colorizer::Rgb);
    let a = colorizer.apply(&word("a"));
    let b = colorizer.apply(&word("b"));
    assert_ne!(a, b);
    assert_eq!(colorizer.apply(&word("a")), a);
    assert_eq!(select(&values).apply(&word("b")), b);
    assert_eq!(colorize_rgb(&word("a")), a);
}

#[test]
fn sixteen_distinct_values_are_coloured_and_seventeen_are_not() {
    let mut values: Vec<ColumnValue> = (0..16).map(ColumnValue::Integer).collect();
    values.push(ColumnValue::Absent);
    values.push(ColumnValue::Integer(3));
    assert_eq!(select(&column(values.clone())), Colorizer::Rgb);
    values.push(ColumnValue::Integer(16));
    assert_eq!(select(&column(values)), Colorizer::Static);
}

#[test]
fn every_channel_lies_in_the_range_of_intensities() {
    for n in -200..200 {
        let (r, g, b) = channels(colorize_rgb(&ColumnValue::Integer(n)));
        for channel in [r, g, b] {
            assert!((128..250).contains(&channel));
        }
    }
}

#[test]
fn channels_are_the_largest_of_three_bytes_of_the_hash() {
    let value = word("some text");
    let hash = hash_value(&value);
    let byte = |i: u32| (hash >> (8 * i)) as u8;
    let fold = |a: u8, b: u8, c: u8| 128 + a.max(b).max(c) % 122;
    assert_eq!(
        colorize_rgb(&value),
        Color::Rgb(
            fold(byte(0), byte(1), byte(2)),
            fold(byte(3), byte(4), byte(5)),
            fold(byte(6), byte(7), byte(0)),
        )
    );
}

#[test]
fn hash_tells_kinds_and_contents_apart() {
    let values = vec![
        ColumnValue::Integer(0),
        ColumnValue::Integer(1),
        ColumnValue::Integer(-1),
        ColumnValue::Boolean(false),
        ColumnValue::Boolean(true),
        word(""),
        word("0"),
        ColumnValue::DateTime(Timestamp::new(0, 0).unwrap()),
        ColumnValue::DateTime(Timestamp::new(0, 1).unwrap()),
        ColumnValue::DateTime(Timestamp::new(1, 0).unwrap()),
        ColumnValue::Absent,
    ];
    for (i, a) in values.iter().enumerate() {
        assert_eq!(hash_value(a), hash_value(&a.clone()));
        for b in values.iter().skip(i + 1) {
            assert_ne!(hash_value(a), hash_value(b));
        }
    }
}
