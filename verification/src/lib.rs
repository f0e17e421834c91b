//! A small calculator library: a tokenizer that turns a line of text into
//! number and operator tokens, and a recursive-descent parser that turns the
//! token stream into an expression tree according to a fixed
//! operator-precedence grammar (exponentiation binds tightest, then
//! multiplication/division, then addition/subtraction; every tier folds
//! left-associatively, including `**`).
//!
//! The library itself never computes with floating-point numbers: a parsed
//! expression carries its numeric literals as text, and evaluating the tree
//! in the caller's numeric domain is the caller's step.

pub mod token;
pub mod tokenizer;
pub mod parser;
pub mod laws;

pub use token::{OperatorType, Token, TokenType, TokenView};
pub use tokenizer::Tokenizer;
pub use parser::{Expr, ParseError, Parser};
