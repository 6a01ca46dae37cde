//! Lexer and statement parser for the monkeyball language.
//!
//! Source text is cut into tokens by [`lexer::Lexer`]; [`parser::Parser`]
//! reads those tokens two at a time and builds a [`ast::Program`] of `let`
//! and `return` statements, collecting a diagnostic for every statement it
//! has to give up on.
pub mod ast;
pub mod lexer;
pub mod parser;
pub mod text;
pub mod token;
