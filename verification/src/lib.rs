//! A lexer and tree builder for Desktop Entry text.
//!
//! The text of a `.desktop` file is scanned into position-annotated tokens
//! and the tokens are assembled into sections, entries and typed values.

pub mod parser;
pub mod sources;
