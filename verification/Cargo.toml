[package]
name = "cppbind"
version = "0.1.0"
edition = "2021"
publish = false

[dependencies]
object = { version = "*", default-features = false, features = ["read", "write", "std"] }
memmap2 = "*"
