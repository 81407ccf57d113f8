//! A small expression-language front end: a longest-match tokenizer producing
//! tokens with exact byte spans, and a Pratt parser building an expression tree.
mod boundary;
pub mod token;
pub mod rules;
pub mod lexer;
pub mod lexer_laws;
pub mod ast;
pub mod grammar;
pub mod parser;
