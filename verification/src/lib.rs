//! An arithmetic-expression calculator: a lexer that turns a line of text
//! into tokens, and a recursive-descent parser that checks the token stream
//! against a three-level precedence grammar and emits a postfix program.
//!
//! Numbers travel through the core as their literal text. The numeric
//! folding itself is IEEE-754 double arithmetic, which the verified core
//! does not model: the host parses each emitted literal and applies the
//! emitted operations with a small stack machine, in the order this crate
//! proves correct for precedence and left-associativity.

pub mod laws;
pub mod lexer;
pub mod parser;
pub mod token;

pub use lexer::tokenize;
pub use parser::parse;
pub use token::{EvalError, Op, Token};
