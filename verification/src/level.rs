//! Diagnostic severity level parsed from the clippy `level` string.

use vstd::prelude::*;

use crate::text::str_equals;

verus! {

/// The two severities that the reports keep.
#[derive(Clone, Copy, Debug, PartialEq, Eq, Structural, Hash)]
pub enum Level {
    Error,
    Warning,
}

/// The level that a clippy `level` string names, if it names one of the two
/// kept severities. The match is exact and case-sensitive.
pub open spec fn level_of(value: Seq<char>) -> Option<Level> {
    if value == "error"@ {
        Some(Level::Error)
    } else if value == "warning"@ {
        Some(Level::Warning)
    } else {
        None
    }
}

impl Level {
    /// Parses `"error"` and `"warning"`; every other string gives `None`.
    pub fn from_str(value: &str) -> (r: Option<Self>)
        ensures
            r == level_of(value@),
    {
        if str_equals(value, "error") {
            Some(Level::Error)
        } else if str_equals(value, "warning") {
            Some(Level::Warning)
        } else {
            None
        }
    }
}

} // verus!
