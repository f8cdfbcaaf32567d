//! Filtering and re-projection of gene-annotation records.
//!
//! The crate provides a small boolean expression language (lexer, parser,
//! evaluator with exact-count predicates) and a line-oriented reader that
//! groups annotation lines into parent records with child records, applying
//! identifier, length, domain and source filters.

pub mod ast;
pub mod expr;
pub mod lex;
pub mod reader;
pub mod records;
pub mod strutil;
pub mod utils;

