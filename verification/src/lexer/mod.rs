//! Scanning Lox source text into tokens.
pub mod keywords;
pub mod scanner;
pub mod token;
