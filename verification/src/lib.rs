//! A columnar view engine for an interactive terminal explorer of typed
//! records: an immutable column store, exact-match filter views, key-grouping
//! views, a drill-down navigator, timeline glyphs and per-value colours.

pub mod configuration;
pub mod io;
pub mod text;

pub mod ui;
