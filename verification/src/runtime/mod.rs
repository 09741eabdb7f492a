//! What compiled programs call: strings, numbers as text, arrays and maps.
pub mod arrays;
pub mod maps;
pub mod numbers;
pub mod strings;
