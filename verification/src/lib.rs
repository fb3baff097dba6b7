//! A lightweight markup language front end: a lexer that turns plain text
//! into a flat token stream, and a recursive-descent parser that turns the
//! token stream into a document tree.
//!
//! The lexer and the parser are verified against spec-level models of the
//! two stages: `lex_rules` defines, character by character, which tokens a
//! source text produces, and `parse_rules` defines, token by token, which
//! document tree a token stream produces.

pub mod token;
pub mod lex_rules;
pub mod lexer;
pub mod ast;
pub mod parse_rules;
pub mod parser;
pub mod laws;
pub mod render;
