//! A tokenizer and precedence-climbing parser for a small expression
//! language: identifiers, decimal literals, a fixed keyword and operator
//! vocabulary, `//` comments, and parenthesised grouping.
//!
//! [`lexer::tokenize`] turns source text into a flat token sequence and
//! [`ast::create_ast`] builds an abstract syntax tree from it, binding
//! operators by their fixed priorities.

pub mod ast;
pub mod lexer;
