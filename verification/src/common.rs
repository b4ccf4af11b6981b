//! Data shared by the grammar front end and the generated parsers.

pub mod action;
pub mod diagnostics;
pub mod error;
pub mod grammar_rules;
pub mod lalr_table;
pub mod name_map;
pub mod numbering;
pub mod parse_table;
pub mod parse_tree;
pub mod reachability;
pub mod symbol_table;
pub mod text;
pub mod token_rules;
