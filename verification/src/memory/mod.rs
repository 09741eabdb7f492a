//! What programs do to memory.
//!
//! [`crate::meaning`] says what a program means on any primitive operations. Here these are
//! what they are on a machine: numbers of 64 bits that wrap around, and blocks of memory,
//! made of slots or of bytes, or of the entries of a map. The laws say what becomes of
//! arrays, structures, values of sum types, strings and maps.
pub mod arrays;
pub mod heap;
pub mod maps;
pub mod numbers;
pub mod objects;
pub mod runtime;
pub mod sorting;
pub mod strings;
pub mod texts;
pub mod walks;
