//! Parsing, validation, comparison and resolution of IRI references.
pub mod utf8;
pub mod error;
pub mod parsing;
pub mod pct;
pub mod segment;
pub mod fragment;
pub mod path;
pub mod reference;
