//! Lexing and parsing by the rules and the table of a grammar.

pub mod lexer;
pub mod parser;
pub mod recognizer;
