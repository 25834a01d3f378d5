//! The library's error taxonomy.
//!
//! Parse and activation errors are always surfaced to the caller; selection
//! expression errors abort the whole expansion with no partial result.

use vstd::prelude::*;

verus! {

/// Every failure the core can report.
#[derive(Debug, Clone, PartialEq)]
pub enum Error {
    /// Malformed mutation-marker structure, at the given 1-indexed line.
    Grammar { line: usize },
    /// No language profile is known for the file extension.
    UnsupportedLanguage,
    /// An activation index beyond the variant count, or a span index that
    /// does not denote a variation.
    IndexOutOfRange,
    /// A tag used in a selection expression maps to no variation.
    TagHasNoMembers { tag: String },
    /// A selection expression names a variant absent from the project.
    UnknownVariant { variant: String },
    /// A no-op activation was requested: the variant is already active.
    VariantAlreadyActive,
    /// Test orchestration was started from a non-clean state.
    Precondition,
    /// A variant name occurs in more than one file of the project.
    AmbiguousVariantName { variant: String },
}

} // verus!
