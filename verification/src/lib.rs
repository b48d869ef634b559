//! A miniature expression-language front end: an infix arithmetic expression
//! over non-negative integer literals and the operators `+ - * /` is lexed
//! into tokens, reordered into a postfix sequence, rebuilt into a single
//! expression tree, and evaluated to one signed integer.
//!
//! The converter and the tree builder share a deliberately simplified
//! precedence discipline: an incoming operator of equal or lower precedence
//! flushes the whole operator stack at once, rather than popping one operator
//! at a time.  The builder likewise performs exactly one final combination
//! after its main pass, so token sequences that would leave more than one
//! pending reduction are rejected rather than rebuilt.  Both limitations are
//! part of the language's definition, not accidents of this implementation.

pub mod ast;
pub mod builder;
pub mod error;
pub mod laws;
pub mod lexer;
pub mod parser;
pub mod rpn;
pub mod token;
