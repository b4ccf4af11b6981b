//! The grammar notation: its symbols, token rules and productions, and the
//! semantic action that turns a grammar text into a grammar.

pub mod action;
pub mod bootstrap;
pub mod classification;
pub mod generator_action;
pub mod grammar_rules;
pub mod lowering;
pub mod parse_tree;
pub mod patterns;
pub mod processor;
pub mod resolution;
pub mod symbol_table;
pub mod token_rules;
