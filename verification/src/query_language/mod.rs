//! The query language: a token lexer and parser, and the line-oriented
//! command grammar used by `execute_query`.

pub mod lexer;
pub mod parser;
pub mod pattern;
pub mod ql;
pub mod query;
