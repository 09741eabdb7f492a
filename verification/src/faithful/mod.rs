//! Why lowered code does what a program means.
//!
//! The code of a function is run as [`crate::flow`] runs it, on a machine that keeps
//! registers and variables and leaves all else to the primitive operations. What comes of it
//! is what [`crate::meaning`] says of the function.
pub mod anatomy;
pub mod arm_anatomy;
pub mod confined;
pub mod exprs;
pub mod landing;
pub mod machine;
pub mod program;
pub mod rowcode;
pub mod shapes;
pub mod stmt_anatomy;
pub mod stmt_landing;
pub mod stmt_shapes;
pub mod stmts;
