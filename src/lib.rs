//! Selects a contiguous range of lines from a text, driven by a compact
//! range expression such as `3`, `2..6`, `2...6`, `3..` or `..4`.
pub mod interval;
pub mod laws;
pub mod parse;
pub mod select;

pub use interval::{FilterError, Interval};
pub use parse::parse_range;
pub use select::{process_range, select_lines, Action, Selector};
