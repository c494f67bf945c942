[package]
name = "mq_edit"
version = "0.1.0"
edition = "2021"
publish = false

[dependencies]
mq-markdown = "*"
serde = { version = "*", features = ["derive"] }
toml = "*"
dirs = "*"
