//! A recognizer for single-line Scheme-like procedure calls such as
//! `(+ 1 2 3)` or `(let x y)`.
//!
//! The crate offers two entry points: [`syntax::validate_syntax`], a cheap
//! balanced-parenthesis check on the raw text, and
//! [`parser::parse_procedure`], a structural parse that classifies the
//! operator (special form, primitive arithmetic symbol, or user-defined
//! name) and collects the whitespace-delimited argument tokens.

pub mod ast;
pub mod parser;
pub mod syntax;
