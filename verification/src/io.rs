//! Typed values, the column store and the read-only views over it.

pub mod columns;
pub mod dataframe;
pub mod input;
pub mod json;
pub mod select;
pub mod value;
