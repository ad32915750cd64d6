//! SQL text: tokens, words, placeholders and the place of a RETURNING clause.

pub mod ast;
pub mod clause;
pub mod context;
pub mod lex;
pub mod placeholder;
pub mod words;
