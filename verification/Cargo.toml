[package]
name = "prmn"
version = "0.1.0"
edition = "2021"
publish = false

[dependencies]
anyhow = "*"
cmdparsing = "*"
cursive = { version = "*", default-features = false, features = ["crossterm-backend"] }
dirs = "*"
fuzzy-matcher = "*"
ron = "*"
serde = { version = "*", features = ["derive"] }
