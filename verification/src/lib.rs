//! Arendal: the front end and tree-walking interpreter of a small expression language.
//!
//! The pipeline is `tokenizer` (characters to tokens), `lexer` (tokens to lexemes),
//! `parser` (lexemes to an AST), `checker` (AST to a typed tree) and `interpreter`
//! (typed tree to a value). `env` ties them together.
pub mod arena;
pub mod ast;
pub mod checker;
pub mod env;
pub mod error;
pub mod id;
pub mod identifier;
pub mod input;
pub mod integer;
pub mod interpreter;
pub mod keyword;
pub mod names;
pub mod lexer;
pub mod parser;
pub mod problem;
pub mod program;
pub mod safety;
pub mod scope;
pub mod symbol;
pub mod tokenizer;
pub mod types;
pub mod value;
pub mod vectree;

use vstd::prelude::*;

verus! {

} // verus!
