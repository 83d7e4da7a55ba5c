//! A front end for a small statically typed, C-like language: a tokenizer, a
//! positionable token stream, and a backtracking recursive-descent parser that
//! builds a syntax tree. Every function is verified against a mathematical
//! model of the lexical rules and of the grammar.

pub mod text;
pub mod tokens;
pub mod lexical;
pub mod tokenizer;
pub mod ast;
pub mod grammar;
pub mod parser;
pub mod unparse;
pub mod written;
pub mod analyzer;
