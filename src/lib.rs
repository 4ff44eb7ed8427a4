//! A small language for building and evaluating polynomials over the
//! Goldilocks prime field: named constants, named polynomial functions,
//! composition and evaluation, and assertions.

pub mod errors;
pub mod grammar;
pub mod laws;
pub mod lexer;
pub mod names;
pub mod parser;
pub mod poly;
pub mod print;
pub mod program;

pub use errors::{InterpreterError, ParserError, PolentaError};
pub use grammar::{BinaryOp, Expr, Stmt, UnaryOp};
pub use parser::{parse_expr, PolentaParser};
pub use poly::Poly;
pub use program::Polenta;
