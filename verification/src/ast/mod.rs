//! The syntax tree of Lox programs and its printers.
pub mod expr;
pub mod graphviz;
pub mod printer;
pub mod stmt;
