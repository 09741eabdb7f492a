//! Lumo: a small statically typed language and its compiler front end.
pub mod assembly;
pub mod ast;
pub mod blocks;
pub mod builtins;
pub mod codegen;
pub mod diagnostics;
pub mod faithful;
pub mod flow;
pub mod fractions;
pub mod grammar;
pub mod ir;
pub mod laws;
pub mod lexer;
pub mod loader;
pub mod lower;
pub mod lowering;
pub mod meaning;
pub mod memory;
pub mod options;
pub mod order;
pub mod parser;
pub mod places;
pub mod reading;
pub mod runtime;
pub mod sound;
pub mod span;
pub mod text;
pub mod token;
pub mod typeck;
pub mod types;
pub mod typing;
