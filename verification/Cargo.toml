[package]
name = "stellaris_parser"
version = "0.1.0"
edition = "2021"
publish = false

[dependencies]
aho-corasick = "*"
anyhow = "*"
clap = { version = "*", features = ["derive"] }
serde = { version = "*", features = ["derive"] }
serde_json = "*"
zip = { version = "*", default-features = false, features = ["deflate"] }
