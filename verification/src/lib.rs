//! A scanner for a small SQL dialect: it turns source text into keywords,
//! identifiers, literals and symbols, one token per call.

pub mod chars;
pub mod token;
pub mod source;
pub mod grammar;
pub mod lexer;
pub mod stream;
pub mod laws;
