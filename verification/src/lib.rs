//! A front end for a small imperative language: a byte-level tokenizer and a
//! statement parser that builds a syntax tree while collecting syntax errors.
//!
//! - [`token`]: the tokens.
//! - [`scan`]: the token grammar, as ghost code over bytes.
//! - [`lexer`]: the tokenizer, verified against the token grammar.
//! - [`spacing`]: the proof that whitespace between tokens changes nothing.
//! - [`ast`]: the syntax tree.
//! - [`grammar`]: the statement grammar, as ghost code over tokens.
//! - [`parser`]: the parser, verified against the statement grammar.
//! - [`error`]: syntax errors and the failure of a parse.
//! - [`text`]: owned text from bytes and numbers.

pub mod ast;
pub mod error;
pub mod grammar;
pub mod lexer;
pub mod parser;
pub mod scan;
pub mod spacing;
pub mod text;
pub mod token;
