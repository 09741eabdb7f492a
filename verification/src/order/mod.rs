//! Why the order of definitions does not matter.
//!
//! A definition may be used before it is written, and functions may call each other: whether
//! a program is accepted does not depend on the order in which its structures, sum types and
//! functions stand.
pub mod alike;
pub mod names;
pub mod program;
