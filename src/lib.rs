//! Conversion of numerals between bases: resolving which base the input
//! is written in, parsing it to a `u128`, and rendering that value in
//! any base from 2 to 33, with optional zero padding and digit grouping.
pub mod convert;
pub mod digits;
pub mod format;
pub mod laws;
pub mod resolve;
pub mod text;

pub use convert::{as_string_base, convert_to_base_10, parse_numeral, ErrorCode};
pub use format::{format_line, group_digits, pad_digits, run_conversions};
pub use resolve::{get_bases, get_from_base, Opt};
