//! A small arithmetic-expression interpreter library.
//!
//! Source text becomes tokens through [`scanner::tokenize`] and an abstract
//! syntax tree through [`ast::ASTParser::create_ast`]; both stages carry
//! full functional contracts and are proved against them for every input.
//! Numeric literals travel through the pipeline as their source lexemes;
//! the calling session walks the finished [`ast::Expression`] tree, turns
//! each lexeme into a machine number there, and keeps its variable bindings
//! in an [`environment::Environment`], whose update and lookup rules are
//! verified here.  [`roundtrip`] proves that rendering a tree back to text
//! is stable for small expressions.

pub mod ast;
pub mod environment;
pub mod roundtrip;
pub mod scanner;
pub mod text;
pub mod token;
