//! Colours of the display.

use vstd::prelude::*;

verus! {

/// A foreground colour.
#[derive(Clone, Copy, Debug, PartialEq, Eq, Structural)]
pub enum Color {
    White,
    Yellow,
    Red,
    LightGreen,
    LightCyan,
    DarkGray,
    Rgb(u8, u8, u8),
}

} // verus!
