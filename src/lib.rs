//! Front end for a small statically typed procedural language: a tokenizer
//! and a recursive-descent parser producing an abstract syntax tree.
pub mod chars;
pub mod token;
pub mod lexer;
pub mod ast;
pub mod error;
pub mod grammar;
pub mod parser;
pub mod laws;

pub use lexer::Lexer;
pub use token::Token;
pub use ast::{Ast, Case, Expr, Operator, Type};
pub use error::ParseError;
pub use parser::{parse, parse_expression, parse_primary, parse_statement, program};
