[package]
name = "symtex"
version = "0.1.0"
edition = "2021"
publish = false

[dependencies]
roaring = "*"
uuid = { version = "*", features = ["v4"] }
chrono = { version = "*", default-features = false, features = ["clock"] }
