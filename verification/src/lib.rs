//! A KWIC-style cyclic-shift index generator.
//!
//! Given one or more text lines, each optionally ending in a URL token, the
//! library produces every cyclic rotation of the words of a line, sorts the
//! rotations under a custom collation rule, and offers lookup and search over
//! the sorted index.
//!
//! [`rotate`] produces the rotations, [`collate`] defines the order,
//! [`sort`] sorts under it, [`text`] holds the word, URL-grammar and
//! substring machinery, [`shifter`] is the single-line index, [`lines`] the
//! multi-line index with its interned URL table, [`regex_api`] the boundary
//! to the regular-expression engine, and [`color`] the console colouring.

pub mod collate;
pub mod color;
pub mod errors;
pub mod lines;
pub mod regex_api;
pub mod rotate;
pub mod shifter;
pub mod sort;
pub mod text;

pub use errors::ShiftError;
pub use lines::Item;
pub use lines::RapidShifterLines;
pub use rotate::Direction;
pub use rotate::RapidShifterIter;
pub use shifter::RapidShifter;
