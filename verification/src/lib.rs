//! A scanner for the Lox language: source text in, tokens or diagnostics out.

pub mod errors;
pub mod grammar;
pub mod laws;
pub mod parser;
pub mod scanner;
pub mod span;
pub mod text;
pub mod token;
