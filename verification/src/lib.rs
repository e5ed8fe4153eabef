//! Front end of a small indentation-sensitive language: a span/position
//! model, a source registry with line/column translation, a diagnostic
//! model, an indentation-aware lexer and a Pratt parser with error
//! recovery.

pub mod ast;
pub mod diag;
pub mod lexer;
pub mod parser;
pub mod render;
pub mod source;
pub mod span;
pub mod strings;
pub mod token;
