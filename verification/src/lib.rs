//! Support routines for grid puzzles: integer-grid geometry, number theory,
//! regex-based line parsing and character iteration.

pub mod geom;
pub mod into_chars;
pub mod numberfns;
pub mod reparse;

pub use self::into_chars::{utf8_char, CharSource, IntoChars};
