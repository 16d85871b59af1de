[package]
name = "codeatlas"
version = "0.1.0"
edition = "2021"
publish = false

[dependencies]
tree-sitter = "*"
tree-sitter-highlight = "*"
tree-sitter-rust = "*"
tree-sitter-python = "*"
tree-sitter-go = "*"
tree-sitter-c = "*"
tree-sitter-cpp = "*"
tree-sitter-javascript = "*"
tree-sitter-typescript = "*"
serde = { version = "1", features = ["derive"] }
serde_json = "1"
anyhow = "1"
clap = { version = "4", features = ["derive"] }
crossterm = "*"
ignore = "*"
ureq = "*"
schemars = "*"

[dev-dependencies]
tempfile = "3"
