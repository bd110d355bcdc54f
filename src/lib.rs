//! Front end of a small expression language: a scanner that turns source text
//! into tokens, and a recursive-descent parser that turns tokens into an
//! expression tree.
pub mod lox;
pub mod parser;
pub mod scanner;
pub mod token;
pub mod token_type;
