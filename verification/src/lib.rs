//! A single-pass lexical scanner for a small interpreted language.
//!
//! The scanner turns a source text into the ordered sequence of tokens that
//! appear in it, tracking the source line of every token for diagnostics.
//! The whole tokenization is specified by a mathematical model over the
//! character sequence of the source (`model::scan_spec`), and the executable
//! scanner is proved to return exactly what the model says.

pub mod model;
pub mod scanner;
pub mod token;
