[package]
name = "luy"
version = "0.1.0"
edition = "2021"
publish = false

[dependencies]
regex = "1"
tree-sitter = "*"
tree-sitter-rust = "*"
tree-sitter-javascript = "*"
tree-sitter-typescript = "*"
anyhow = "1"
clap = { version = "4", features = ["derive"] }
ignore = "*"
