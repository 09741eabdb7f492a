[package]
name = "lumo"
version = "0.45.0"
edition = "2021"
publish = false

[dependencies]
inkwell = { version = "*", features = ["llvm22-1-no-llvm-linking"] }
