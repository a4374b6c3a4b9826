//! What the explorer shows: navigation state, timelines and colours.

pub mod app;
pub mod card;
pub mod colorizer;
pub mod footer;
pub mod style;
pub mod table;
pub mod timeline;
