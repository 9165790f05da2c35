//! A parser for a small expression language in which a value is transformed
//! strictly from left to right, by appending to what is already written:
//!
//! ```text
//! 1 + 2 * 3 as x;
//! ```
//!
//! binds 9 to `x`, for there is no precedence among the operators. An
//! operator takes what the chain has produced so far and one operand more: a
//! literal, a name, or a chain between parentheses.
//!
//! [`file_parser`] reads statements, [`parse_chain`], [`parse_block`] and
//! [`parse_literal`] read an input that is one chain, one block or one
//! literal, and the functions of [`parser`] read one rule at a place in the
//! input. Each gives a tree or the first error, never a part of a tree.
//!
//! [`grammar`] states what is read, by functions on sequences of characters,
//! and every function of [`parser`] is proved to read exactly that. Of the
//! grammar it is proved
//!
//! - in [`progress`], that every rule moves forward within the input and
//!   every error points into it;
//! - in [`shape`], that the trees have the shape that the rules promise;
//! - in [`reading_back`], that the text of a tree is read back as that tree,
//!   whatever layout stands around its statements;
//! - in [`faithful`], that a tree is written exactly as the text that it was
//!   read from, strings apart, of which the tree keeps the meaning only.
//!
//! Positions count characters, not bytes, from 0.

pub mod ast;
pub mod diagnostics;
pub mod faithful;
pub mod grammar;
pub mod lexical;
pub mod numbers;
pub mod parser;
pub mod progress;
pub mod reading_back;
pub mod shape;
pub mod strings;
pub mod writing;

pub use ast::{Expr, InfixOp, Literal, Location};
pub use diagnostics::{ErrorKind, Expected, ExpectedSet, ParseError};
pub use parser::{
    file_parser, parse_block, parse_chain, parse_literal, ParserContext, ParserState,
};
