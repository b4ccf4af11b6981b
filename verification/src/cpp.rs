//! Tokens that come from a lexer outside of this library.

pub mod adapter;
