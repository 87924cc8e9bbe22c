[package]
name = "pyfastgrep"
version = "0.1.0"
edition = "2021"
publish = false

[dependencies]
globset = "0.4"
grep = "0.3"
ignore = "0.4"
rayon = "1"
crossbeam-channel = "0.5"
tree-sitter = "0.20"
tree-sitter-rust = "0.20"
tree-sitter-python = "0.20"
tree-sitter-c = "0.20"
tree-sitter-cpp = "0.20"
tree-sitter-go = "0.20"
tree-sitter-javascript = "0.20"
tree-sitter-typescript = "0.20"
serde = { version = "1", features = ["derive"] }
serde_json = "1"
pyo3 = "0.20"
