//! A parser generator for an EBNF dialect.
//!
//! A grammar text is read by a parser for the grammar notation itself, which
//! yields the symbols, productions and token rules of the described language.
//! From these an LALR(1) table is built, and a table-driven stack machine
//! turns a token stream into a parse tree or into whatever a semantic action
//! makes of it.

pub mod common;
pub mod compiler;
pub mod cpp;
pub mod generator;
