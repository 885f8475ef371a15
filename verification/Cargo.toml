[package]
name = "llang"
version = "0.1.0"
edition = "2021"
publish = false

[dependencies]
inkwell = { version = "0.5", features = ["llvm14-0-prefer-dynamic"] }
