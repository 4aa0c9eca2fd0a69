//! A small file-management toolkit: a query language (lexer, token parser
//! and the line-oriented command grammar), and the decisions behind the
//! `create`, `list` and `search` commands.

pub mod text;
pub mod query_language;
pub mod commands;
