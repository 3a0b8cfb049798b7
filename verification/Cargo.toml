[package]
name = "span"
version = "0.1.0"
edition = "2021"
publish = false

[dependencies]
itertools = "*"
owned_chars = "*"
serde = { version = "*", features = ["derive"] }
