//! A small graph rewriting library.
//!
//! The heart of the crate is the [`grs`] module: a graph rewriting
//! engine that matches rule patterns against a mutable data graph and,
//! on success, materializes a replacement subgraph and redirects the
//! matched root to it.  The surrounding modules hold the simpler
//! companions: a lambda-expression evaluator ([`expr`]), a toy term
//! rewriting system ([`trs`]), the abstract syntax for rule notation
//! ([`ast`]) and a lexer for it ([`parser`]).

pub mod ast;
pub mod expr;
pub mod grs;
pub mod grsng;
pub mod parser;
pub mod trs;
