//! Front end of a small expression-oriented language: a tokenizer and a
//! recursive-descent parser with verified contracts.

pub mod ast;
pub mod charset;
pub mod decimal;
pub mod diagnostic;
pub mod grammar;
pub mod identifier;
pub mod laws;
pub mod lexer;
pub mod operator;
pub mod order;
pub mod parser;
pub mod precedence;
pub mod roundtrip;
pub mod scan;
pub mod span;
pub mod spellings;
pub mod text;
pub mod token;
