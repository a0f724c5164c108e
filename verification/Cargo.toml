[package]
name = "ara_source"
version = "0.1.0"
edition = "2021"
publish = false

[dependencies]
rustc-hash = "1.1.0"
