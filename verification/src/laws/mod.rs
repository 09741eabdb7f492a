//! What holds of the language as a whole.
//!
//! Each law here relates what a stage does to something that is said apart from it: how a
//! token is written, how the operators of a kind are alike, what the instructions of LLVM do.
pub mod accepting;
pub mod blockruns;
pub mod calls;
pub mod control;
pub mod definitions;
pub mod effects;
pub mod emitted;
pub mod functions;
pub mod instructions;
pub mod jumps;
pub mod lines;
pub mod llvm;
pub mod loading;
pub mod modules;
pub mod names;
pub mod naming;
pub mod operators;
pub mod parsing;
pub mod phrases;
pub mod places;
pub mod running;
pub mod statements;
pub mod trees;
pub mod vocabulary;
pub mod wording;
pub mod writing;
