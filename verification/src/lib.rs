//! Lexical analysis for a small scripting language: the scanner turns source
//! text into a flat token sequence, collecting line-tagged diagnostics for
//! invalid characters and unterminated string literals along the way.

pub mod chars;
pub mod error_log;
pub mod laws;
pub mod scan_model;
pub mod scanner;
pub mod tokens;
