//! The failures an index reports.  Absence of search results is not a
//! failure: searches report it as an ordinary empty outcome.

use vstd::prelude::*;

verus! {

/// The failures an index operation can report.
#[derive(Debug, PartialEq, Eq)]
pub enum ShiftError {
    /// An access at or beyond the number of rotations.
    OutOfRange,
    /// The search pattern is not a valid regular expression; carries the
    /// offending pattern.
    RegexSyntax { pattern: String },
    /// The search pattern compiles to an automaton over the size limit;
    /// carries the pattern and the limit that was exceeded.
    RegexCompiledTooBig { pattern: String, size: usize },
}

} // verus!
