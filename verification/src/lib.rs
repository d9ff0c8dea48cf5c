//! A lexer, parser and supporting machinery for ApLang, a small language
//! modelled on the AP Computer Science Principles reference sheet.
pub mod token;

pub use token::join_spans;
pub mod lexer;
pub mod ast;
pub mod parser_spec;
pub mod parser;
pub mod parser_laws;
pub mod robot;
pub mod aplang;
pub mod env;
