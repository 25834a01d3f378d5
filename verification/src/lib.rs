//! Marauders is a library for injecting and maintaining inline mutations in
//! source code.
//!
//! Mutations use a comment-augmented syntax: a marked region of source (a
//! "variation") holds one base implementation and any number of named
//! alternatives ("variants"), with exactly one of them active (uncommented)
//! at a time.  The library parses source text into a span sequence, lets
//! callers query and switch the active variant, and serializes the structure
//! back to text, byte-for-byte for unchanged regions.
//!
//! A small expression language (the selection algebra) compiles strings such
//! as `"+easy * (insert + delete)"` into the list of variant combinations to
//! test.

/// Structured programmatic access to a project's variations.
pub mod api;
/// The selection algebra: the mutation-expression language.
pub mod algebra;
/// Parsed source files: the span sequence and its serializer.
pub mod code;
/// The library's error taxonomy.
pub mod errors;
/// Language profiles: comment delimiters and the mutation marker per language.
pub mod languages;
/// The mutation syntaxes: the comment grammar parser.
pub mod syntax;
/// Projects: file collections and the selection orchestration.
pub mod project;
/// The variation/variant model and its activation state machine.
pub mod variation;
