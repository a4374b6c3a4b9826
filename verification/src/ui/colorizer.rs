//! One colour per value of a column.

use vstd::prelude::*;
use vstd::bytes::{spec_u32_to_le_bytes, spec_u64_to_le_bytes, u32_to_le_bytes, u64_to_le_bytes};
use vstd::std_specs::hash::DefaultHasherAdditionalSpecFns;
use vstd::utf8::encode_utf8;
use std::collections::hash_map::DefaultHasher;
use std::hash::Hasher;
use crate::io::columns::{lemma_distinct_values, values_of, Column};
use crate::io::value::{ColumnValue, Datum};
use crate::ui::style::Color;

verus! {

/// The most distinct values that still get a colour each.
pub const MAX_COLORS: usize = 16;

/// The weakest intensity of a colour channel.
pub const MIN_INTENSITY: u8 = 128;

/// The bound above every intensity of a colour channel.
pub const MAX_INTENSITY: u8 = 250;

/// How the values of a column are coloured.
#[derive(Clone, Copy, Debug, PartialEq, Eq, Structural)]
pub enum Colorizer {
    /// Each value by its content.
    Rgb,
    /// Every value alike.
    Static,
}

/// The number of distinct values among the cells, not counting the absent
/// one.
pub open spec fn palette_size(cells: Seq<Datum>) -> nat {
    cells.to_set().remove(Datum::Absent).len()
}

/// A column gets a colour per value where it has two to sixteen distinct
/// values.
pub open spec fn is_colorful(cells: Seq<Datum>) -> bool {
    2 <= palette_size(cells) <= MAX_COLORS
}

/// The 64-bit two's complement of a signed 64-bit number.
pub open spec fn twos(n: int) -> u64 {
    if n >= 0 {
        n as u64
    } else {
        (n + 0x1_0000_0000_0000_0000) as u64
    }
}

/// What is fed to the hasher for a value: a tag for its kind, then its
/// content in a fixed byte order.
pub open spec fn hash_input(value: Datum) -> Seq<Seq<u8>> {
    match value {
        Datum::Integer(n) => seq![seq![0u8], spec_u64_to_le_bytes(twos(n))],
        Datum::Boolean(b) => seq![seq![1u8], seq![if b { 1u8 } else { 0u8 }]],
        Datum::Text(t) => seq![seq![2u8], encode_utf8(t)],
        Datum::Instant(t) => seq![
            seq![3u8],
            spec_u64_to_le_bytes(twos(t.spec_secs())),
            spec_u32_to_le_bytes(t.spec_nanos() as u32),
        ],
        Datum::Absent => seq![seq![4u8]],
    }
}

/// The hash of a value's content.
pub open spec fn content_hash(value: Datum) -> u64 {
    DefaultHasher::spec_finish(hash_input(value))
}

/// Byte `i` of a hash, counted from the lowest.
pub open spec fn hash_byte(hash: u64, i: u64) -> u8 {
    ((hash >> (8 * i)) & 0xff) as u8
}

/// The largest of three bytes.
pub open spec fn max3(a: u8, b: u8, c: u8) -> u8 {
    if a >= b && a >= c {
        a
    } else if b >= c {
        b
    } else {
        c
    }
}

/// A byte folded into the range of intensities.
pub open spec fn intensify(x: u8) -> u8 {
    (MIN_INTENSITY + x % (MAX_INTENSITY - MIN_INTENSITY) as u8) as u8
}

/// The colour of a hash: each channel the largest of three of its bytes,
/// folded into the range of intensities.
pub open spec fn rgb_of(hash: u64) -> Color {
    Color::Rgb(
        intensify(max3(hash_byte(hash, 0), hash_byte(hash, 1), hash_byte(hash, 2))),
        intensify(max3(hash_byte(hash, 3), hash_byte(hash, 4), hash_byte(hash, 5))),
        intensify(max3(hash_byte(hash, 6), hash_byte(hash, 7), hash_byte(hash, 0))),
    )
}

/// The colour that a colourizer gives a value.
pub open spec fn color_of(colorizer: Colorizer, value: Datum) -> Color {
    match colorizer {
        Colorizer::Rgb => rgb_of(content_hash(value)),
        Colorizer::Static => Color::White,
    }
}

/// Every channel of a hash's colour lies in the range of intensities.
pub proof fn lemma_rgb_range(hash: u64)
    ensures
        rgb_of(hash) matches Color::Rgb(r, g, b) && MIN_INTENSITY <= r < MAX_INTENSITY
            && MIN_INTENSITY <= g < MAX_INTENSITY && MIN_INTENSITY <= b < MAX_INTENSITY,
{
}

fn write_tag(state: &mut DefaultHasher, tag: u8)
    ensures
        final(state)@ == old(state)@.push(seq![tag]),
{
    let mut bytes: Vec<u8> = Vec::new();
    bytes.push(tag);
    assert(bytes@ =~= seq![tag]);
    state.write(bytes.as_slice());
}

fn write_signed(state: &mut DefaultHasher, n: i64)
    ensures
        final(state)@ == old(state)@.push(spec_u64_to_le_bytes(twos(n as int))),
{
    let x: u64 = if n >= 0 {
        n as u64
    } else {
        u64::MAX - ((-(n + 1)) as u64)
    };
    let bytes = u64_to_le_bytes(x);
    state.write(bytes.as_slice());
}

/// The hash of a value's content: see [`content_hash`].
pub fn hash_value(value: &ColumnValue) -> (hash: u64)
    ensures
        hash == content_hash(value@),
{
    let mut state = DefaultHasher::new();
    match value {
        ColumnValue::Integer(n) => {
            write_tag(&mut state, 0);
            write_signed(&mut state, *n);
        },
        ColumnValue::Boolean(b) => {
            write_tag(&mut state, 1);
            write_tag(
                &mut state,
                if *b {
                    1
                } else {
                    0
                },
            );
        },
        ColumnValue::String(s) => {
            write_tag(&mut state, 2);
            state.write(s.as_str().as_bytes());
        },
        ColumnValue::DateTime(t) => {
            write_tag(&mut state, 3);
            write_signed(&mut state, t.secs());
            let bytes = u32_to_le_bytes(t.nanos());
            state.write(bytes.as_slice());
        },
        ColumnValue::Absent => {
            write_tag(&mut state, 4);
        },
    }
    assert(state@ =~= hash_input(value@));
    state.finish()
}

fn byte_at(hash: u64, i: u64) -> (b: u8)
    requires
        i < 8,
    ensures
        b == hash_byte(hash, i),
{
    let shifted: u64 = (hash >> (8 * i)) & 0xff;
    assert(shifted <= 0xff) by (bit_vector)
        requires
            shifted == (hash >> (8 * i)) & 0xff,
    ;
    shifted as u8
}

fn largest(a: u8, b: u8, c: u8) -> (m: u8)
    ensures
        m == max3(a, b, c),
{
    if a >= b && a >= c {
        a
    } else if b >= c {
        b
    } else {
        c
    }
}

fn fold(x: u8) -> (y: u8)
    ensures
        y == intensify(x),
        MIN_INTENSITY <= y < MAX_INTENSITY,
{
    MIN_INTENSITY + x % (MAX_INTENSITY - MIN_INTENSITY)
}

/// The colour of a value by its content: equal values get equal colours,
/// in every run.
pub fn colorize_rgb(value: &ColumnValue) -> (color: Color)
    ensures
        color == rgb_of(content_hash(value@)),
        color matches Color::Rgb(r, g, b) && MIN_INTENSITY <= r < MAX_INTENSITY && MIN_INTENSITY
            <= g < MAX_INTENSITY && MIN_INTENSITY <= b < MAX_INTENSITY,
{
    let hash = hash_value(value);
    let b0 = byte_at(hash, 0);
    let r = fold(largest(b0, byte_at(hash, 1), byte_at(hash, 2)));
    let g = fold(largest(byte_at(hash, 3), byte_at(hash, 4), byte_at(hash, 5)));
    let b = fold(largest(byte_at(hash, 6), byte_at(hash, 7), b0));
    Color::Rgb(r, g, b)
}

/// The one colour of a column that is not coloured by value.
pub fn colorize_static(_value: &ColumnValue) -> (color: Color)
    ensures
        color == Color::White,
{
    Color::White
}

impl Colorizer {
    /// The colour of `value`.
    pub fn apply(&self, value: &ColumnValue) -> (color: Color)
        ensures
            color == color_of(*self, value@),
    {
        match self {
            Colorizer::Rgb => colorize_rgb(value),
            Colorizer::Static => colorize_static(value),
        }
    }
}

/// How to colour the values of a column: each by its content where the
/// column has two to sixteen distinct values besides the absent one, and
/// all alike otherwise.
pub fn select(col: &Column) -> (colorizer: Colorizer)
    ensures
        colorizer == if is_colorful(col.values.deep_view()) {
            Colorizer::Rgb
        } else {
            Colorizer::Static
        },
{
    let ghost cells = col.values.deep_view();
    let unique_values = col.unique();
    let ghost distinct = values_of(unique_values@);
    proof {
        lemma_distinct_values(cells);
    }
    let mut has_absent = false;
    let mut k: usize = 0;
    while k < unique_values.len()
        invariant
            k <= unique_values.len(),
            distinct == values_of(unique_values@),
            has_absent == exists|a: int| 0 <= a < k && #[trigger] distinct[a] == Datum::Absent,
        decreases unique_values.len() - k,
    {
        assert(distinct[k as int] == unique_values[k as int]@);
        match unique_values[k] {
            ColumnValue::Absent => {
                has_absent = true;
            },
            _ => {},
        }
        k += 1;
    }
    let count = if has_absent {
        unique_values.len() - 1
    } else {
        unique_values.len()
    };
    proof {
        assert(has_absent == distinct.contains(Datum::Absent));
        assert(has_absent == cells.to_set().contains(Datum::Absent)) by {
            assert(distinct.to_set().contains(Datum::Absent) == distinct.contains(Datum::Absent));
        }
        vstd::seq_lib::seq_to_set_is_finite(cells);
        assert(count == palette_size(cells));
    }
    if 2 <= count && count <= MAX_COLORS {
        Colorizer::Rgb
    } else {
        Colorizer::Static
    }
}

/// A column with at most one distinct value besides the absent one gives
/// every value, the absent one too, the same colour.
pub proof fn lemma_single_value_static(cells: Seq<Datum>, colorizer: Colorizer, a: Datum, b: Datum)
    requires
        palette_size(cells) <= 1,
        colorizer == if is_colorful(cells) {
            Colorizer::Rgb
        } else {
            Colorizer::Static
        },
    ensures
        color_of(colorizer, a) == color_of(colorizer, b),
        color_of(colorizer, a) == Color::White,
{
}

} // verus!
