//! Loading a store from JSON records.

use vstd::prelude::*;
use vstd::string::StringExecFns;
use chrono::DateTime;
use crate::io::columns::{column_entries, columns_insert, columns_new, position_of, Column};
use crate::io::dataframe::{Frame, MaterializedDataFrame, StoreError};
use crate::io::json::{
    compact_json,
    parse_json,
    parse_json_stream,
    parsed_json,
    parsed_json_stream,
    pretty_json,
    to_compact_json,
    to_pretty_json,
    JsonNumber,
    JsonValue,
};
use crate::io::value::{ColumnValue, Datum, Timestamp, MAX_SECS, MIN_SECS, NANOS_PER_SEC};
use crate::text::{decimal_text, decimal_usize, split, split_on, texts_of};

verus! {

/// The instant that a text names in the date and time format of RFC 3339,
/// if it names one: the seconds since the Unix epoch and the nanoseconds
/// into the second.
pub uninterp spec fn rfc3339_instant(text: Seq<char>) -> Option<(i64, u32)>;

/// `DateTime::parse_from_rfc3339`, then `DateTime::timestamp` and
/// `DateTime::timestamp_subsec_nanos` of what it gives: the instant that
/// the text names, or nothing where it names none.
#[verifier::external_body]
fn parse_rfc3339(text: &str) -> (r: Option<(i64, u32)>)
    ensures
        r == rfc3339_instant(text@),
{
    match DateTime::parse_from_rfc3339(text) {
        Ok(instant) => Some((instant.timestamp(), instant.timestamp_subsec_nanos())),
        Err(_) => None,
    }
}

/// The instant of a reading of seconds and nanoseconds, where it can be
/// held. Nanoseconds beyond the second, as a leap second is read, count
/// into the following second.
pub open spec fn instant_at(secs: int, nanos: int) -> Option<Timestamp> {
    if nanos < NANOS_PER_SEC {
        if MIN_SECS <= secs <= MAX_SECS {
            Some(Timestamp::at(secs, nanos))
        } else {
            None
        }
    } else if MIN_SECS <= secs + 1 <= MAX_SECS && nanos - NANOS_PER_SEC < NANOS_PER_SEC {
        Some(Timestamp::at(secs + 1, nanos - NANOS_PER_SEC))
    } else {
        None
    }
}

/// The instant of a reading of seconds and nanoseconds: see
/// [`instant_at`].
pub fn make_instant(secs: i64, nanos: u32) -> (r: Option<Timestamp>)
    ensures
        r == instant_at(secs as int, nanos as int),
{
    if nanos < NANOS_PER_SEC {
        Timestamp::new(secs, nanos)
    } else if secs < MAX_SECS {
        Timestamp::new(secs + 1, nanos - NANOS_PER_SEC)
    } else {
        None
    }
}

/// Why a JSON value is no cell.
#[derive(Clone, Copy, Debug, PartialEq, Eq, Structural)]
pub enum ExtractError {
    /// A number that is not a signed 64-bit integer.
    NotInteger,
    /// An array or an object.
    Unsupported,
}

/// Why records could not be loaded.
#[derive(Debug, PartialEq)]
pub enum LoadError {
    /// The input is not the JSON that was asked for.
    InvalidJson,
    /// The value of an attribute in a record is no cell.
    Extract { attribute: String, record: usize, value: String, reason: ExtractError },
    /// The columns are no store.
    Store(StoreError),
}

/// The message of a load error.
pub open spec fn load_message(error: LoadError) -> Seq<char> {
    match error {
        LoadError::InvalidJson => "input is not valid JSON"@,
        LoadError::Extract { attribute, record, value, reason } => "failed to parse value="@
            + value@ + ": "@ + (match reason {
            ExtractError::NotInteger => "number="@ + value@ + " is not i64"@,
            ExtractError::Unsupported => "unsupported value="@ + value@,
        }) + " (attribute "@ + attribute@ + ", record "@ + decimal_text(record as int) + ")"@,
        LoadError::Store(StoreError::NoColumns) => "data should have at least one column"@,
        LoadError::Store(StoreError::NoRows) => "data should have at least one row"@,
        LoadError::Store(StoreError::ColumnLengthMismatch) =>
            "columns have different number of rows"@,
        LoadError::Store(StoreError::RawLengthMismatch) =>
            "records and rows differ in number"@,
    }
}

impl LoadError {
    /// The message of the error: what failed and, for a value, in which
    /// attribute and record.
    pub fn message(&self) -> (text: String)
        ensures
            text@ == load_message(*self),
    {
        match self {
            LoadError::InvalidJson => String::from_str("input is not valid JSON"),
            LoadError::Extract { attribute, record, value, reason } => {
                let why = match reason {
                    ExtractError::NotInteger => String::from_str("number=").concat(
                        value.as_str(),
                    ).concat(" is not i64"),
                    ExtractError::Unsupported => String::from_str("unsupported value=").concat(
                        value.as_str(),
                    ),
                };
                String::from_str("failed to parse value=").concat(value.as_str()).concat(
                    ": ",
                ).concat(why.as_str()).concat(" (attribute ").concat(attribute.as_str()).concat(
                    ", record ",
                ).concat(decimal_usize(*record).as_str()).concat(")")
            },
            LoadError::Store(StoreError::NoColumns) => String::from_str(
                "data should have at least one column",
            ),
            LoadError::Store(StoreError::NoRows) => String::from_str(
                "data should have at least one row",
            ),
            LoadError::Store(StoreError::ColumnLengthMismatch) => String::from_str(
                "columns have different number of rows",
            ),
            LoadError::Store(StoreError::RawLengthMismatch) => String::from_str(
                "records and rows differ in number",
            ),
        }
    }
}

/// The cell that a JSON value stands for. A text that names an instant
/// that can be held is that instant; every other text is itself.
pub open spec fn extracted(value: JsonValue) -> Result<Datum, ExtractError> {
    match value {
        JsonValue::Bool(b) => Ok(Datum::Boolean(b)),
        JsonValue::Number(JsonNumber::Integer(n)) => Ok(Datum::Integer(n as int)),
        JsonValue::Number(JsonNumber::Other(_)) => Err(ExtractError::NotInteger),
        JsonValue::String(s) => Ok(
            match rfc3339_instant(s@) {
                Some((secs, nanos)) => match instant_at(secs as int, nanos as int) {
                    Some(t) => Datum::Instant(t),
                    None => Datum::Text(s@),
                },
                None => Datum::Text(s@),
            },
        ),
        JsonValue::Null => Ok(Datum::Absent),
        JsonValue::Array(_) => Err(ExtractError::Unsupported),
        JsonValue::Object(_) => Err(ExtractError::Unsupported),
    }
}

/// The cell that a JSON value stands for: see [`extracted`].
pub fn extract_column_value(value: &JsonValue) -> (r: Result<ColumnValue, ExtractError>)
    ensures
        match r {
            Ok(cell) => extracted(*value) == Ok::<Datum, ExtractError>(cell@),
            Err(e) => extracted(*value) == Err::<Datum, ExtractError>(e),
        },
{
    match value {
        JsonValue::Bool(b) => Ok(ColumnValue::Boolean(*b)),
        JsonValue::Number(JsonNumber::Integer(n)) => Ok(ColumnValue::Integer(*n)),
        JsonValue::Number(JsonNumber::Other(_)) => Err(ExtractError::NotInteger),
        JsonValue::String(s) => {
            match parse_rfc3339(s.as_str()) {
                Some((secs, nanos)) => match make_instant(secs, nanos) {
                    Some(t) => Ok(ColumnValue::DateTime(t)),
                    None => Ok(ColumnValue::String(s.clone())),
                },
                None => Ok(ColumnValue::String(s.clone())),
            }
        },
        JsonValue::Null => Ok(ColumnValue::Absent),
        JsonValue::Array(_) => Err(ExtractError::Unsupported),
        JsonValue::Object(_) => Err(ExtractError::Unsupported),
    }
}

/// The integer cell of a JSON value: of a number that is a signed 64-bit
/// integer. The reason tells a number that is none from what is no number.
pub fn extract_integer_from_json(value: &JsonValue) -> (r: Result<ColumnValue, &'static str>)
    ensures
        match *value {
            JsonValue::Number(JsonNumber::Integer(n)) => r matches Ok(cell) && cell@
                == Datum::Integer(n as int),
            JsonValue::Number(JsonNumber::Other(_)) => r matches Err(reason) && reason@
                == "value is not integer"@,
            _ => r matches Err(reason) && reason@ == "value is not a number"@,
        },
{
    match value {
        JsonValue::Number(JsonNumber::Integer(n)) => Ok(ColumnValue::Integer(*n)),
        JsonValue::Number(JsonNumber::Other(_)) => Err("value is not integer"),
        _ => Err("value is not a number"),
    }
}

/// The text cell of a JSON value: of a text, as it is.
pub fn extract_string_from_json(value: &JsonValue) -> (r: Result<ColumnValue, &'static str>)
    ensures
        match *value {
            JsonValue::String(s) => r matches Ok(cell) && cell@ == Datum::Text(s@),
            _ => r matches Err(reason) && reason@ == "value is not a string"@,
        },
{
    match value {
        JsonValue::String(v) => Ok(ColumnValue::String(v.clone())),
        _ => Err("value is not a string"),
    }
}

/// The value of the first member called `key` among the members from
/// position `from` on.
pub open spec fn member_from(members: Seq<(String, JsonValue)>, key: Seq<char>, from: nat) -> Option<
    JsonValue,
>
    decreases members.len() - from,
{
    if from >= members.len() {
        None
    } else if members[from as int].0@ == key {
        Some(members[from as int].1)
    } else {
        member_from(members, key, from + 1)
    }
}

/// The value that the names of `path`, from position `from` on, lead to
/// from `value`: each name picks the member of that name of the object
/// reached so far. There is none where a name is missing or what is
/// reached is no object.
pub open spec fn descend(value: JsonValue, path: Seq<Seq<char>>, from: nat) -> Option<JsonValue>
    decreases path.len() - from,
{
    if from >= path.len() {
        Some(value)
    } else {
        match value {
            JsonValue::Object(members) => match member_from(members@, path[from as int], 0) {
                Some(inner) => descend(inner, path, from + 1),
                None => None,
            },
            _ => None,
        }
    }
}

/// The cell of a record for a path: the cell of the value that the path
/// leads to, and the absent cell where it leads to none.
pub open spec fn cell_of(record: JsonValue, path: Seq<Seq<char>>) -> Result<Datum, ExtractError> {
    match descend(record, path, 0) {
        Some(value) => extracted(value),
        None => Ok(Datum::Absent),
    }
}

/// The path of an attribute: its name, split at the dots.
pub open spec fn path_of(name: Seq<char>) -> Seq<Seq<char>> {
    split_on(name, '.')
}

/// The cells of an attribute: one per record.
pub open spec fn cells_of(records: Seq<JsonValue>, name: Seq<char>) -> Seq<Datum> {
    Seq::new(records.len(), |i: int| cell_of(records[i], path_of(name))->Ok_0)
}

/// The value of the first member called `key`.
fn find_member<'a>(members: &'a Vec<(String, JsonValue)>, key: &String) -> (r: Option<&'a JsonValue>)
    ensures
        match r {
            Some(value) => member_from(members@, key@, 0) == Some(*value),
            None => member_from(members@, key@, 0) is None,
        },
{
    let mut k: usize = 0;
    while k < members.len()
        invariant
            k <= members.len(),
            member_from(members@, key@, 0) == member_from(members@, key@, k as nat),
        decreases members.len() - k,
    {
        if members[k].0 == *key {
            return Some(&members[k].1);
        }
        k += 1;
    }
    None
}

/// The value that `path` leads to from `record`: see [`descend`].
fn follow<'a>(record: &'a JsonValue, path: &Vec<String>) -> (r: Option<&'a JsonValue>)
    ensures
        match r {
            Some(value) => descend(*record, texts_of(path@), 0) == Some(*value),
            None => descend(*record, texts_of(path@), 0) is None,
        },
{
    let ghost names = texts_of(path@);
    let mut element: &JsonValue = record;
    let mut k: usize = 0;
    while k < path.len()
        invariant
            k <= path.len(),
            names == texts_of(path@),
            descend(*record, names, 0) == descend(*element, names, k as nat),
        decreases path.len() - k,
    {
        assert(names[k as int] == path[k as int]@);
        match element {
            JsonValue::Object(members) => match find_member(members, &path[k]) {
                Some(inner) => {
                    element = inner;
                },
                None => {
                    return None;
                },
            },
            _ => {
                return None;
            },
        }
        k += 1;
    }
    Some(element)
}

/// `r` is what extracting the attribute called `name` from the records
/// gives: a column of its name with a cell per record, or the first record
/// whose value is no cell, with that value on one line and the reason.
pub open spec fn extracts(records: Seq<JsonValue>, name: Seq<char>, r: Result<Column, LoadError>) -> bool {
    match r {
        Ok(column) => {
            &&& column.name@ == name
            &&& column.values.deep_view() == cells_of(records, name)
            &&& forall|i: int|
                0 <= i < records.len() ==> (#[trigger] cell_of(records[i], path_of(name))) is Ok
        },
        Err(LoadError::Extract { attribute, record, value, reason }) => {
            &&& attribute@ == name
            &&& record < records.len()
            &&& forall|i: int|
                0 <= i < record ==> (#[trigger] cell_of(records[i], path_of(name))) is Ok
            &&& cell_of(records[record as int], path_of(name)) == Err::<Datum, ExtractError>(reason)
            &&& descend(records[record as int], path_of(name), 0) matches Some(found)
            &&& value@ == compact_json(found)
        },
        Err(_) => false,
    }
}

/// The column of the attribute called `name`: its cell in every record,
/// found by following the name, split at the dots, through the objects of
/// the record. See [`extracts`].
pub fn extract_column(name: &str, input: &Vec<JsonValue>) -> (r: Result<Column, LoadError>)
    ensures
        extracts(input@, name@, r),
{
    let ghost records = input@;
    let attr_path = split(name, '.');
    let ghost path = path_of(name@);
    let mut values: Vec<ColumnValue> = Vec::new();
    let mut i: usize = 0;
    while i < input.len()
        invariant
            i <= input.len(),
            records == input@,
            path == texts_of(attr_path@),
            path == path_of(name@),
            values.len() == i,
            forall|j: int| 0 <= j < i ==> (#[trigger] cell_of(records[j], path)) is Ok,
            forall|j: int| 0 <= j < i ==> (#[trigger] values[j])@ == cell_of(records[j], path)->Ok_0,
        decreases input.len() - i,
    {
        match follow(&input[i], &attr_path) {
            None => {
                values.push(ColumnValue::Absent);
            },
            Some(element) => match extract_column_value(element) {
                Ok(v) => {
                    values.push(v);
                },
                Err(reason) => {
                    return Err(
                        LoadError::Extract {
                            attribute: String::from_str(name),
                            record: i,
                            value: to_compact_json(element),
                            reason,
                        },
                    );
                },
            },
        }
        i += 1;
    }
    let column = Column { name: String::from_str(name), values };
    assert(column.values.deep_view() =~= cells_of(records, name@));
    Ok(column)
}


/// A table of named columns with `cells` under `name`: in the place of the
/// column of that name where there is one, else behind the others.
pub open spec fn put(table: Seq<(Seq<char>, Seq<Datum>)>, name: Seq<char>, cells: Seq<Datum>) -> Seq<
    (Seq<char>, Seq<Datum>),
> {
    if exists|p: int| 0 <= p < table.len() && (#[trigger] table[p]).0 == name {
        table.update(
            choose|p: int| 0 <= p < table.len() && (#[trigger] table[p]).0 == name,
            (name, cells),
        )
    } else {
        table.push((name, cells))
    }
}

/// The columns of the first `n` attributes, each with its cells in the
/// records. An attribute that is named again replaces its column.
pub open spec fn table_of(records: Seq<JsonValue>, attributes: Seq<Seq<char>>, n: nat) -> Seq<
    (Seq<char>, Seq<Datum>),
>
    decreases n,
{
    if n == 0 {
        Seq::empty()
    } else {
        put(
            table_of(records, attributes, (n - 1) as nat),
            attributes[n - 1],
            cells_of(records, attributes[n - 1]),
        )
    }
}

/// The frame of the attributes over the records: a column per attribute
/// and the indented text of each record.
pub open spec fn loaded_frame(records: Seq<JsonValue>, attributes: Seq<Seq<char>>) -> Frame {
    let table = table_of(records, attributes, attributes.len());
    Frame {
        names: Seq::new(table.len(), |c: int| table[c].0),
        cells: Seq::new(table.len(), |c: int| table[c].1),
        raw: Seq::new(records.len(), |i: int| pretty_json(records[i])),
    }
}

/// Some record holds a value for the attribute that is no cell.
pub open spec fn faulty(records: Seq<JsonValue>, name: Seq<char>) -> bool {
    exists|i: int| 0 <= i < records.len() && (#[trigger] cell_of(records[i], path_of(name))) is Err
}

/// `r` is what loading the attributes from the records gives. Where every
/// value is a cell and there is an attribute and a record: the store of
/// [`loaded_frame`]. Where some value is no cell: the first such value of
/// the first attribute that has one. Else: that there is no column, or no
/// row.
pub open spec fn loads(
    records: Seq<JsonValue>,
    attributes: Seq<Seq<char>>,
    r: Result<MaterializedDataFrame, LoadError>,
) -> bool {
    match r {
        Ok(df) => {
            &&& forall|k: int| 0 <= k < attributes.len() ==> !faulty(records, #[trigger] attributes[k])
            &&& attributes.len() > 0
            &&& records.len() > 0
            &&& df.wf()
            &&& df@ == loaded_frame(records, attributes)
        },
        Err(LoadError::InvalidJson) => false,
        Err(LoadError::Store(e)) => {
            &&& forall|k: int| 0 <= k < attributes.len() ==> !faulty(records, #[trigger] attributes[k])
            &&& e == if attributes.len() == 0 {
                StoreError::NoColumns
            } else {
                StoreError::NoRows
            }
            &&& attributes.len() == 0 || records.len() == 0
        },
        Err(e) => exists|k: int|
            0 <= k < attributes.len() && (forall|j: int|
                0 <= j < k ==> !faulty(records, #[trigger] attributes[j])) && extracts(
                records,
                #[trigger] attributes[k],
                Err(e),
            ),
    }
}

/// What a table of columns holds of a column map.
pub open spec fn holds_table(entries: Seq<(String, Column)>, table: Seq<(Seq<char>, Seq<Datum>)>) -> bool {
    &&& entries.len() == table.len()
    &&& forall|p: int|
        0 <= p < table.len() ==> (#[trigger] entries[p]).0@ == table[p].0
            && entries[p].1.values.deep_view() == table[p].1
    &&& forall|p: int, q: int|
        0 <= p < table.len() && 0 <= q < table.len() && p != q ==> (#[trigger] table[p]).0 != (
        #[trigger] table[q]).0
}

/// The store of the attributes over the records: see [`loads`].
pub fn build_dataframe(records: &Vec<JsonValue>, attributes: &[String]) -> (r: Result<
    MaterializedDataFrame,
    LoadError,
>)
    ensures
        loads(records@, texts_of(attributes@), r),
{
    let ghost names = texts_of(attributes@);
    let mut columns = columns_new();
    let mut k: usize = 0;
    while k < attributes.len()
        invariant
            k <= attributes.len(),
            names == texts_of(attributes@),
            holds_table(column_entries(columns), table_of(records@, names, k as nat)),
            forall|p: int|
                0 <= p < table_of(records@, names, k as nat).len() ==> (#[trigger] table_of(
                    records@,
                    names,
                    k as nat,
                )[p]).1.len() == records.len(),
            k > 0 ==> column_entries(columns).len() > 0,
            forall|j: int| 0 <= j < k ==> !faulty(records@, #[trigger] names[j]),
        decreases attributes.len() - k,
    {
        let ghost entries = column_entries(columns);
        let ghost table = table_of(records@, names, k as nat);
        let ghost name = names[k as int];
        assert(name == attributes[k as int]@);
        let extracted = extract_column(attributes[k].as_str(), records);
        match extracted {
            Ok(column) => {
                let ghost cells = column.values.deep_view();
                assert(!faulty(records@, name));
                assert((exists|j: int| 0 <= j < entries.len() && (#[trigger] entries[j]).0@ == name)
                    == (exists|p: int| 0 <= p < table.len() && (#[trigger] table[p]).0 == name)) by {
                    if exists|j: int| 0 <= j < entries.len() && (#[trigger] entries[j]).0@ == name {
                        let j = choose|j: int|
                            0 <= j < entries.len() && (#[trigger] entries[j]).0@ == name;
                        assert(table[j].0 == name);
                    }
                    if exists|p: int| 0 <= p < table.len() && (#[trigger] table[p]).0 == name {
                        let p = choose|p: int| 0 <= p < table.len() && (#[trigger] table[p]).0 == name;
                        assert(entries[p].0@ == name);
                    }
                }
                proof {
                    if let Some(p) = position_of(entries, name) {
                        let q = choose|q: int|
                            0 <= q < table.len() && (#[trigger] table[q]).0 == name;
                        assert(entries[p].0@ == name);
                        assert(table[p].0 == name);
                        assert(p == q);
                    }
                }
                let key = column.name.clone();
                columns_insert(&mut columns, key, column);
                let ghost after = table_of(records@, names, (k + 1) as nat);
                assert(after == put(table, name, cells));
                assert(holds_table(column_entries(columns), after));
            },
            Err(e) => {
                assert(extracts(records@, names[k as int], Err(e)));
                return Err(e);
            },
        }
        k += 1;
    }
    let mut raw: Vec<String> = Vec::new();
    let mut i: usize = 0;
    while i < records.len()
        invariant
            i <= records.len(),
            raw.len() == i,
            forall|j: int| 0 <= j < i ==> (#[trigger] raw[j])@ == pretty_json(records[j]),
        decreases records.len() - i,
    {
        raw.push(to_pretty_json(&records[i]));
        i += 1;
    }
    let ghost entries = column_entries(columns);
    let ghost table = table_of(records@, names, names.len());
    let ghost lengths = crate::io::dataframe::column_lengths(entries);
    assert forall|c: int| 0 <= c < lengths.len() implies #[trigger] lengths[c] == records.len() by {
        assert(entries[c].1.values.deep_view() == table[c].1);
        assert(entries[c].1.values.deep_view().len() == entries[c].1.values.len());
        assert(table[c].1.len() == records.len());
    }
    match MaterializedDataFrame::construct(columns, raw) {
        Ok(df) => {
            let ghost frame = loaded_frame(records@, names);
            assert(df@.names =~= frame.names);
            assert(df@.cells =~= frame.cells);
            assert(df@.raw =~= frame.raw);
            Ok(df)
        },
        Err(e) => Err(LoadError::Store(e)),
    }
}

/// The records that an input holds: the items of its one JSON array where
/// a single value is asked for, else its JSON values one after another.
pub open spec fn parsed_records(text: Seq<char>, as_single_object: bool) -> Option<Seq<JsonValue>> {
    if as_single_object {
        match parsed_json(text) {
            Some(JsonValue::Array(items)) => Some(items@),
            _ => None,
        }
    } else {
        match parsed_json_stream(text) {
            Some(values) => Some(values@),
            None => None,
        }
    }
}

/// The store of the attributes over the records that the input holds: see
/// [`parsed_records`] and [`loads`].
pub fn read_dataframe(input: &str, attributes: &[String], as_single_object: bool) -> (r: Result<
    MaterializedDataFrame,
    LoadError,
>)
    ensures
        match parsed_records(input@, as_single_object) {
            Some(records) => loads(records, texts_of(attributes@), r),
            None => r matches Err(LoadError::InvalidJson),
        },
{
    let records = if as_single_object {
        match parse_json(input) {
            Some(JsonValue::Array(items)) => items,
            _ => {
                return Err(LoadError::InvalidJson);
            },
        }
    } else {
        match parse_json_stream(input) {
            Some(values) => values,
            None => {
                return Err(LoadError::InvalidJson);
            },
        }
    };
    build_dataframe(&records, attributes)
}

} // verus!
