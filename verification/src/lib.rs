//! A small reader for `.ini`-style configuration text.
//!
//! The input is scanned line by line: `[name]` lines open a new section,
//! `key=value` lines add an entry to the current section, and blank lines or
//! lines whose first character is `;` or `#` are skipped.  Parsing either
//! yields a read-only document of sections, or fails at the first malformed
//! line with a line-numbered error.
//!
//! Every public operation carries a contract that pins its result down against
//! a mathematical model of the format: `spec_parse` is a functional definition
//! of the grammar over sequences of characters, and `Ini::parse` is proved to
//! return exactly what `spec_parse` describes.

#![verifier::loop_isolation(false)]

mod document;
mod error;
mod lines;
mod parse;
mod text;

pub use document::Ini;
pub use document::IniSection;
pub use error::IniParsingError;
pub use parse::IniMode;
