[package]
name = "zuc"
version = "0.1.0"
edition = "2021"
publish = false

[dependencies]
digest = { version = "0.10", features = ["mac"] }
