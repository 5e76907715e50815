//! An arithmetic-expression front end: a tokenizer over characters and a
//! precedence-climbing parser that turns tokens into an expression tree.

pub mod token;
pub mod lexer;
pub mod table;
pub mod parser;
