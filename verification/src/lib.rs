//! Front end for a small JavaScript-like language: a pull-based lexer, a
//! span-annotated abstract syntax tree, and a recursive-descent parser with
//! precedence climbing for expressions. Identifier names are interned through
//! the `string_cache` crate.

pub mod ast;
pub mod interner;
pub mod lexer;
pub mod parser;
pub mod token;
