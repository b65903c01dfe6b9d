//! A small pattern-matching engine.
//!
//! A pattern is written with literal characters, the wildcard `.`,
//! concatenation, alternation `|`, grouping `( )` and repetition `*`.
//! It is validated, compiled into a tree, and the tree is then walked
//! against a target string. Each target gets one of three verdicts.

pub mod engine;
pub mod matcher;
pub mod parse_laws;
pub mod parser;
pub mod pattern_laws;
pub mod text;
pub mod tree;
pub mod validate;
pub mod walk_laws;
