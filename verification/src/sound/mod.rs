//! Why lowered code has types.
//!
//! Every instruction works on values of the types that it is made for, every register has
//! the type of what is written to it, and so has every variable; calls and returns agree
//! with the functions that they are of. This is what LLVM asks of the text that the code
//! becomes. It asks too that every register is written by one instruction, and so it is.
pub mod code;
pub mod exprs;
pub mod fits;
pub mod once;
pub mod program;
pub mod rows;
pub mod stmts;
pub mod types;
pub mod vars;
