//! Migrates benchmark definitions from the legacy macro-invocation dialect to
//! the attribute-annotated dialect.
//!
//! The pipeline classifies raw source lines ([`lexer`], [`block`]), extracts
//! range parameters ([`param`]), assembles the classified lines into one
//! target-dialect module ([`writer`]), and renders it back to text
//! ([`generator`]).

pub mod benchmark_parser;
pub mod block;
pub mod errors;
pub mod generator;
pub mod lexer;
pub mod param;
pub mod text;
pub mod writer;
