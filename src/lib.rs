//! Arithmetic expressions: a lazy tokenizer and a precedence-climbing parser
//! that builds an owned expression tree.
//!
//! Numeric literals are kept as the text that was read; turning that text into a
//! floating-point value, and evaluating the tree, is left to the caller.
use vstd::prelude::*;

pub mod ast;
pub mod parser;
pub mod token;
pub mod tokenizer;

pub use ast::{Expr, Node};
pub use parser::parse;
pub use token::{ParseError, Tok, Token};
pub use tokenizer::{tokenize, Tokenizer};

verus! {

} // verus!
