//! The Conclave source language: lexer, parser, normalizer and lowering to Plan IR.
pub mod error;
pub mod lexer;
pub mod ast;
pub mod grammar;
pub mod parser;
pub mod normalize;
pub mod ast_json;
pub mod lowering;
pub mod lower;
pub mod module_cache;
pub mod layout;
pub mod spacing;
