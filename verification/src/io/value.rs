//! Cell values and the instants they may hold.

use vstd::prelude::*;
use vstd::std_specs::cmp::PartialEqSpecImpl;
use vstd::string::StringExecFns;
use chrono::DateTime;
use crate::text::{decimal_i64, decimal_text, padded_digits};

verus! {

/// Nanoseconds in one second.
pub const NANOS_PER_SEC: u32 = 1_000_000_000;

/// Earliest second since the Unix epoch that an instant may hold.
pub const MIN_SECS: i64 = -8_334_601_228_800;

/// Latest second since the Unix epoch that an instant may hold.
pub const MAX_SECS: i64 = 8_210_266_876_799;

/// A UTC instant: whole seconds since the Unix epoch and the nanoseconds
/// into that second. Every instant lies in the supported range, and its
/// nanoseconds stay within the second.
#[derive(Clone, Copy, Debug, PartialEq, Eq, Hash, Structural)]
pub struct Timestamp {
    secs: i64,
    nanos: u32,
}

impl Timestamp {
    /// Whole seconds since the Unix epoch.
    pub closed spec fn spec_secs(&self) -> int {
        self.secs as int
    }

    /// Nanoseconds into the second.
    pub closed spec fn spec_nanos(&self) -> int {
        self.nanos as int
    }

    /// The instant with these parts.
    pub closed spec fn at(secs: int, nanos: int) -> Timestamp {
        Timestamp { secs: secs as i64, nanos: nanos as u32 }
    }

    /// The instant lies in the supported range and its nanoseconds stay
    /// within the second.
    #[verifier::type_invariant]
    pub closed spec fn wf(&self) -> bool {
        &&& MIN_SECS <= self.secs <= MAX_SECS
        &&& self.nanos < NANOS_PER_SEC
    }

    /// What [`Timestamp::wf`] says of the parts.
    pub proof fn lemma_wf(&self)
        ensures
            #[trigger] self.wf() == (MIN_SECS <= self.spec_secs() <= MAX_SECS && 0
                <= self.spec_nanos() < NANOS_PER_SEC),
    {
    }

    /// The parts of the instant made of parts that can be held.
    pub proof fn lemma_at(secs: int, nanos: int)
        requires
            MIN_SECS <= secs <= MAX_SECS,
            0 <= nanos < NANOS_PER_SEC,
        ensures
            Timestamp::at(secs, nanos).wf(),
            Timestamp::at(secs, nanos).spec_secs() == secs,
            Timestamp::at(secs, nanos).spec_nanos() == nanos,
    {
    }

    /// Valid instants at the same nanosecond since the epoch are the same.
    pub proof fn lemma_instant(a: Timestamp, b: Timestamp)
        requires
            a.wf(),
            b.wf(),
            a.instant() == b.instant(),
        ensures
            a == b,
    {
    }

    /// Nanoseconds since the Unix epoch.
    pub open spec fn instant(&self) -> int {
        self.spec_secs() * 1_000_000_000 + self.spec_nanos()
    }

    /// `self` is not later than `other`.
    pub open spec fn spec_le(&self, other: &Timestamp) -> bool {
        self.instant() <= other.instant()
    }

    /// The instant `secs` seconds and `nanos` nanoseconds after the epoch,
    /// where it can be held.
    pub fn new(secs: i64, nanos: u32) -> (r: Option<Timestamp>)
        ensures
            r is Some == (MIN_SECS <= secs <= MAX_SECS && nanos < NANOS_PER_SEC),
            r matches Some(t) ==> t.spec_secs() == secs && t.spec_nanos() == nanos && t.wf() && t
                == Timestamp::at(secs as int, nanos as int),
    {
        if MIN_SECS <= secs && secs <= MAX_SECS && nanos < NANOS_PER_SEC {
            Some(Timestamp { secs, nanos })
        } else {
            None
        }
    }

    /// Whole seconds since the Unix epoch.
    pub fn secs(&self) -> (secs: i64)
        ensures
            secs == self.spec_secs(),
            MIN_SECS <= secs <= MAX_SECS,
            self.wf(),
    {
        proof {
            use_type_invariant(self);
        }
        self.secs
    }

    /// Nanoseconds into the second.
    pub fn nanos(&self) -> (nanos: u32)
        ensures
            nanos == self.spec_nanos(),
            nanos < NANOS_PER_SEC,
            self.wf(),
    {
        proof {
            use_type_invariant(self);
        }
        self.nanos
    }

    /// The instant `offset` nanoseconds after `self`, where it can be held.
    pub fn checked_add_nanos(&self, offset: u128) -> (r: Option<Timestamp>)
        ensures
            r is Some == (self.instant() + offset <= MAX_SECS * 1_000_000_000 + 999_999_999),
            r matches Some(t) ==> t.wf() && t.instant() == self.instant() + offset,
    {
        proof {
            use_type_invariant(self);
        }
        if offset > 20_000_000_000_000_000_000_000u128 {
            return None;
        }
        let total: u128 = self.nanos as u128 + offset;
        let carry: u128 = total / 1_000_000_000u128;
        let nanos: u128 = total % 1_000_000_000u128;
        let secs: i128 = self.secs as i128 + carry as i128;
        if secs > MAX_SECS as i128 {
            return None;
        }
        Some(Timestamp { secs: secs as i64, nanos: nanos as u32 })
    }

    /// The nanoseconds from `self` to the later instant `other`.
    pub fn nanos_until(&self, other: &Timestamp) -> (span: u128)
        requires
            self.spec_le(other),
        ensures
            span == other.instant() - self.instant(),
    {
        proof {
            use_type_invariant(self);
            use_type_invariant(other);
        }
        let whole: i128 = (other.secs as i128 - self.secs as i128) * 1_000_000_000i128;
        let span: i128 = whole + other.nanos as i128 - self.nanos as i128;
        span as u128
    }

    /// Chronological comparison.
    pub fn le(&self, other: &Timestamp) -> (b: bool)
        ensures
            b == self.spec_le(other),
    {
        proof {
            use_type_invariant(self);
            use_type_invariant(other);
        }
        self.secs < other.secs || (self.secs == other.secs && self.nanos <= other.nanos)
    }
}

/// The time of day of an instant in UTC, as `HH:MM:SS.mmm`: hours, minutes
/// and seconds of the day with two digits each, then the milliseconds of
/// the second with three.
pub open spec fn clock_text(secs: int, nanos: int) -> Seq<char> {
    let second_of_day = secs % 86_400;
    padded_digits((second_of_day / 3_600) as nat, 2) + seq![':'] + padded_digits(
        (second_of_day % 3_600 / 60) as nat,
        2,
    ) + seq![':'] + padded_digits((second_of_day % 60) as nat, 2) + seq!['.'] + padded_digits(
        (nanos / 1_000_000) as nat,
        3,
    )
}

/// `DateTime::from_timestamp` and `DateTime::format` with the pattern
/// `%H:%M:%S%.3f`: the time of day in UTC of the instant `secs` seconds and
/// `nanos` nanoseconds after the Unix epoch.
#[verifier::external_body]
fn format_clock(secs: i64, nanos: u32) -> (text: String)
    requires
        MIN_SECS <= secs <= MAX_SECS,
        nanos < NANOS_PER_SEC,
    ensures
        text@ == clock_text(secs as int, nanos as int),
{
    match DateTime::from_timestamp(secs, nanos) {
        Some(instant) => instant.format("%H:%M:%S%.3f").to_string(),
        None => String::new(),
    }
}

/// One cell of a column.
#[derive(Debug, Eq, Hash)]
pub enum ColumnValue {
    Integer(i64),
    Boolean(bool),
    String(String),
    DateTime(Timestamp),
    Absent,
}

/// What a cell holds, as a mathematical value.
pub enum Datum {
    Integer(int),
    Boolean(bool),
    Text(Seq<char>),
    Instant(Timestamp),
    Absent,
}

impl View for ColumnValue {
    type V = Datum;

    open spec fn view(&self) -> Datum {
        match self {
            ColumnValue::Integer(n) => Datum::Integer(*n as int),
            ColumnValue::Boolean(b) => Datum::Boolean(*b),
            ColumnValue::String(s) => Datum::Text(s@),
            ColumnValue::DateTime(t) => Datum::Instant(*t),
            ColumnValue::Absent => Datum::Absent,
        }
    }
}

impl DeepView for ColumnValue {
    type V = Datum;

    open spec fn deep_view(&self) -> Datum {
        self@
    }
}

/// The text that stands for a value on the display: the decimal text of an
/// integer, `+` or `-` for a boolean, a text as it is, the time of day of
/// an instant, and nothing for the absent value.
pub open spec fn display_text(value: Datum) -> Seq<char> {
    match value {
        Datum::Integer(n) => decimal_text(n),
        Datum::Boolean(b) => if b {
            seq!['+']
        } else {
            seq!['-']
        },
        Datum::Text(t) => t,
        Datum::Instant(t) => clock_text(t.spec_secs(), t.spec_nanos()),
        Datum::Absent => Seq::empty(),
    }
}

impl ColumnValue {
    /// The text that stands for the value on the display.
    pub fn to_string(&self) -> (text: String)
        ensures
            text@ == display_text(self@),
    {
        match self {
            ColumnValue::Integer(n) => decimal_i64(*n),
            ColumnValue::Boolean(b) => {
                proof {
                    reveal_strlit("+");
                    reveal_strlit("-");
                }
                let text = if *b {
                    String::from_str("+")
                } else {
                    String::from_str("-")
                };
                assert(text@ =~= display_text(self@));
                text
            },
            ColumnValue::String(s) => s.clone(),
            ColumnValue::DateTime(t) => format_clock(t.secs(), t.nanos()),
            ColumnValue::Absent => String::new(),
        }
    }
}

impl Clone for ColumnValue {
    fn clone(&self) -> (r: ColumnValue)
        ensures
            r@ == self@,
    {
        match self {
            ColumnValue::Integer(n) => ColumnValue::Integer(*n),
            ColumnValue::Boolean(b) => ColumnValue::Boolean(*b),
            ColumnValue::String(s) => ColumnValue::String(s.clone()),
            ColumnValue::DateTime(t) => ColumnValue::DateTime(*t),
            ColumnValue::Absent => ColumnValue::Absent,
        }
    }
}

impl PartialEq for ColumnValue {
    fn eq(&self, other: &ColumnValue) -> (b: bool) {
        match (self, other) {
            (ColumnValue::Integer(a), ColumnValue::Integer(b)) => *a == *b,
            (ColumnValue::Boolean(a), ColumnValue::Boolean(b)) => *a == *b,
            (ColumnValue::String(a), ColumnValue::String(b)) => *a == *b,
            (ColumnValue::DateTime(a), ColumnValue::DateTime(b)) => *a == *b,
            (ColumnValue::Absent, ColumnValue::Absent) => true,
            _ => false,
        }
    }
}

impl PartialEqSpecImpl for ColumnValue {
    open spec fn obeys_eq_spec() -> bool {
        true
    }

    open spec fn eq_spec(&self, other: &ColumnValue) -> bool {
        self@ == other@
    }
}

} // verus!
