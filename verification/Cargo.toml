[package]
name = "qmkfmt"
version = "0.1.0"
edition = "2021"
publish = false

[dependencies]
clap = { version = "4", features = ["derive"] }
env_logger = "*"
log = "*"
streaming-iterator = "*"
tree-sitter = "*"
tree-sitter-c = "*"
