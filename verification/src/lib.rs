//! Lexical analysis for a small bracket-delimited language in which every
//! name is rewritten into a number before any later stage sees it.

pub mod chars;
pub mod decimal;
pub mod diagnostics;
pub mod identifier;
pub mod integer;
pub mod lexer;
pub mod number;
pub mod polynomial;
pub mod text;
