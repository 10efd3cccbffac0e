//! A small line-oriented template language: literal lines, file inserts and
//! variable inserts, with a verified parser and evaluator.

pub mod ast;
pub mod eval;
pub mod laws;
pub mod lex;
pub mod parse;
pub mod paths;
pub mod print;

pub use ast::Command;
pub use ast::Ident;
pub use ast::Insert;
pub use ast::Line;
pub use ast::Path;
pub use ast::TemplateError;
pub use ast::Var;
