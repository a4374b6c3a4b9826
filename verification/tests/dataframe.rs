use group::io::columns::Column;
use group::io::dataframe::{DataFrame, MaterializedDataFrame, StoreError};
use group::io::value::{ColumnValue, Timestamp};
use indexmap::IndexMap;

fn word(s: &str) -> ColumnValue {
    ColumnValue::String(String::from(s))
}

fn number(n: i64) -> ColumnValue {
    ColumnValue::Integer(n)
}

fn column_map(columns: Vec<(&str, Vec<ColumnValue>)>) -> IndexMap<String, Column> {
    let mut map = IndexMap::new();
    for (name, values) in columns {
        map.insert(String::from(name), Column { name: String::from(name), values });
    }
    map
}

fn raw_records(count: usize) -> Vec<String> {
    (0..count).map(|i| format!("{{\"row\": {}}}", i)).collect()
}

fn store(columns: Vec<(&str, Vec<ColumnValue>)>) -> MaterializedDataFrame {
    let rows = columns[0].1.len();
    MaterializedDataFrame::new(column_map(columns), raw_records(rows))
}

fn pairs(list: Vec<(&str, ColumnValue)>) -> Vec<(String, ColumnValue)> {
    list.into_iter().map(|(name, value)| (String::from(name), value)).collect()
}

fn sample() -> MaterializedDataFrame {
    store(vec![
        ("kind", vec![word("x"), word("y"), word("x"), ColumnValue::Absent, word("y"), word("x")]),
        ("size", vec![number(1), number(2), number(1), number(2), number(3), number(4)]),
        ("flag", vec![
            ColumnValue::Boolean(true),
            ColumnValue::Boolean(false),
            ColumnValue::Boolean(true),
            ColumnValue::Absent,
            ColumnValue::Absent,
            ColumnValue::Boolean(true),
        ]),
    ])
}

#[test]
fn construct_accepts_columns_of_one_length_with_their_records() {
    let built = MaterializedDataFrame::construct(
        column_map(vec![("a", vec![number(1), number(2)]), ("b", vec![word("p"), word("q")])]),
        raw_records(2),
    )
    .unwrap();
    assert_eq!(built.len(), 2);
    assert_eq!(built.column_names(), vec![&String::from("a"), &String::from("b")]);
    assert_eq!(built.row(1), vec![number(2), word("q")]);
    assert_eq!(built.raw(1), "{\"row\": 1}");
    assert_eq!(built.get("b", 0), &word("p"));
    assert_eq!(built.position("b"), Some(1));
    assert_eq!(built.position("c"), None);
    assert!(built.column("c").is_none());
    assert_eq!(built.column("a").unwrap().values, vec![number(1), number(2)]);
    assert_eq!(built.column_at(1).name, "b");
}

#[test]
fn construct_rejects_what_is_no_store() {
    assert_eq!(
        MaterializedDataFrame::construct(column_map(vec![]), raw_records(0)).err(),
        Some(StoreError::NoColumns)
    );
    assert_eq!(
        MaterializedDataFrame::construct(column_map(vec![]), raw_records(3)).err(),
        Some(StoreError::NoColumns)
    );
    assert_eq!(
        MaterializedDataFrame::construct(
            column_map(vec![("a", vec![number(1)]), ("b", vec![])]),
            raw_records(1)
        )
        .err(),
        Some(StoreError::ColumnLengthMismatch)
    );
    assert_eq!(
        MaterializedDataFrame::construct(
            column_map(vec![("a", vec![]), ("b", vec![number(1)])]),
            raw_records(0)
        )
        .err(),
        Some(StoreError::ColumnLengthMismatch)
    );
    assert_eq!(
        MaterializedDataFrame::construct(column_map(vec![("a", vec![])]), raw_records(0)).err(),
        Some(StoreError::NoRows)
    );
    assert_eq!(
        MaterializedDataFrame::construct(column_map(vec![("a", vec![number(1)])]), raw_records(2))
            .err(),
        Some(StoreError::RawLengthMismatch)
    );
}

#[test]
fn filter_keeps_the_rows_that_meet_every_constraint_in_order() {
    let df = sample();
    let by_kind = df.filter(&pairs(vec![("kind", word("x"))]));
    assert_eq!(by_kind.len(), 3);
    assert_eq!(
        (0..3).map(|i| by_kind.source_index(i)).collect::<Vec<usize>>(),
        vec![0, 2, 5]
    );
    assert_eq!(by_kind.row(2), vec![word("x"), number(4), ColumnValue::Boolean(true)]);
    assert_eq!(by_kind.raw(1), "{\"row\": 2}");
    assert_eq!(by_kind.get("size", 2), &number(4));
    assert_eq!(
        by_kind.column_names(),
        vec![&String::from("kind"), &String::from("size"), &String::from("flag")]
    );

    let both = df.filter(&pairs(vec![("kind", word("x")), ("size", number(1))]));
    assert_eq!(both.len(), 2);
    assert_eq!(both.source_index(0), 0);
    assert_eq!(both.source_index(1), 2);

    let none = df.filter(&pairs(vec![("kind", word("x")), ("size", number(2))]));
    assert_eq!(none.len(), 0);
}

#[test]
fn filter_without_constraints_is_the_whole_store() {
    let df = sample();
    let all = df.filter(&pairs(vec![]));
    assert_eq!(all.len(), df.len());
    for i in 0..df.len() {
        assert_eq!(all.source_index(i), i);
        assert_eq!(all.row(i), df.row(i));
        assert_eq!(all.raw(i), df.raw(i));
    }
}

#[test]
fn filter_matches_the_absent_value_only_with_itself() {
    let df = sample();
    let absent = df.filter(&pairs(vec![("flag", ColumnValue::Absent)]));
    assert_eq!(absent.len(), 2);
    assert_eq!(absent.source_index(0), 3);
    assert_eq!(absent.source_index(1), 4);
    let mixed = df.filter(&pairs(vec![("kind", ColumnValue::Absent), ("size", number(2))]));
    assert_eq!(mixed.len(), 1);
    assert_eq!(mixed.source_index(0), 3);
}

#[test]
fn filter_ignores_a_constraint_on_an_unknown_column() {
    let df = sample();
    let view = df.filter(&pairs(vec![("nowhere", number(1)), ("size", number(2))]));
    assert_eq!(view.len(), 2);
    assert_eq!(view.source_index(0), 1);
    assert_eq!(view.source_index(1), 3);
}

#[test]
fn filter_tells_kinds_of_values_apart() {
    let df = store(vec![(
        "v",
        vec![
            number(1),
            word("1"),
            ColumnValue::Boolean(true),
            ColumnValue::DateTime(Timestamp::new(1, 0).unwrap()),
            ColumnValue::DateTime(Timestamp::new(1, 1).unwrap()),
        ],
    )]);
    assert_eq!(df.filter(&pairs(vec![("v", number(1))])).len(), 1);
    assert_eq!(df.filter(&pairs(vec![("v", word("1"))])).source_index(0), 1);
    let instant = df.filter(&pairs(vec![(
        "v",
        ColumnValue::DateTime(Timestamp::new(1, 1).unwrap()),
    )]));
    assert_eq!(instant.len(), 1);
    assert_eq!(instant.source_index(0), 4);
}

#[test]
fn group_by_orders_groups_by_first_occurrence_and_members_by_row() {
    let df = sample();
    let keys = vec![String::from("kind")];
    let extra = vec![String::from("size")];
    let groups = df.group_by(&keys, &extra);
    assert_eq!(groups.len(), 3);
    assert_eq!(groups.group_indices(0), &vec![0, 2, 5]);
    assert_eq!(groups.group_indices(1), &vec![1, 4]);
    assert_eq!(groups.group_indices(2), &vec![3]);
    assert_eq!(groups.representative(1), 1);
    assert_eq!(groups.row(2), vec![ColumnValue::Absent, number(2), ColumnValue::Absent]);
    assert_eq!(groups.raw(1), "{\"row\": 1}");
    assert_eq!(groups.get("size", 1), &number(2));
    assert_eq!(groups.column_names(), vec![&String::from("kind"), &String::from("size")]);
    assert_eq!(groups.key_columns(), &keys[..]);
}

#[test]
fn group_by_visits_every_row_exactly_once() {
    let df = sample();
    let keys = vec![String::from("size"), String::from("flag")];
    let extra: Vec<String> = vec![];
    let groups = df.group_by(&keys, &extra);
    let mut seen: Vec<usize> = Vec::new();
    let mut heads: Vec<usize> = Vec::new();
    for g in 0..groups.len() {
        heads.push(groups.group_indices(g)[0]);
        seen.extend(groups.group_indices(g).iter());
    }
    assert_eq!(heads, vec![0, 1, 3, 4, 5]);
    assert_eq!(seen, vec![0, 2, 1, 3, 4, 5]);
    seen.sort();
    assert_eq!(seen, vec![0, 1, 2, 3, 4, 5]);
}

#[test]
fn group_by_without_key_columns_is_one_group() {
    let df = sample();
    let keys: Vec<String> = vec![];
    let extra: Vec<String> = vec![];
    let groups = df.group_by(&keys, &extra);
    assert_eq!(groups.len(), 1);
    assert_eq!(groups.group_indices(0), &vec![0, 1, 2, 3, 4, 5]);
}

#[test]
fn grouping_the_representatives_again_does_not_merge_groups() {
    let df = sample();
    let keys = vec![String::from("kind"), String::from("flag")];
    let extra: Vec<String> = vec![];
    let groups = df.group_by(&keys, &extra);
    let count = groups.len();
    assert_eq!(count, 4);
    let mut kind = Vec::new();
    let mut flag = Vec::new();
    for g in 0..count {
        kind.push(groups.get("kind", g).clone());
        flag.push(groups.get("flag", g).clone());
    }
    let picked = store(vec![("kind", kind), ("flag", flag)]);
    let again = picked.group_by(&keys, &extra);
    assert_eq!(again.len(), count);
    for g in 0..count {
        assert_eq!(again.group_indices(g), &vec![g]);
    }
}

#[test]
fn unique_lists_each_value_once_in_first_occurrence_order() {
    let column = Column {
        name: String::from("c"),
        values: vec![word("b"), ColumnValue::Absent, word("a"), word("b"), number(0), word("a")],
    };
    assert_eq!(
        column.unique(),
        vec![&word("b"), &ColumnValue::Absent, &word("a"), &number(0)]
    );
    assert_eq!(column.index(4), &number(0));
    let empty = Column { name: String::from("e"), values: vec![] };
    assert!(empty.unique().is_empty());
}
