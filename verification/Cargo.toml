[package]
name = "runin"
version = "0.2.2"
edition = "2021"
publish = false

[dependencies]
clap = { version = "4", features = ["derive"] }
serde = { version = "1", features = ["derive"] }
shell-words = "1"
toml = "0.8"
