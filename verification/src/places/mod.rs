//! Why every error can be shown in its source.
//!
//! Every span of a tree starts and ends between characters of the source that the tree was
//! read from, and every error of the lexer, the parser and the type checker has such a
//! span, or none.
pub mod checks;
pub mod defs;
pub mod exprs;
pub mod rows;
pub mod shown;
pub mod stmts;
pub mod tree;
