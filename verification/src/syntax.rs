//! The mutation syntaxes.

/// The comment-embedded mutation grammar: parser and round-trip law.
pub mod comment;
/// Splitting source text into physical lines, reversibly.
pub mod lines;
