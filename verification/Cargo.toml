[package]
name = "debugger_panel"
version = "0.1.0"
edition = "2021"
publish = false

[dependencies]
anyhow = "*"
itertools = "*"
log = "*"
serde = { version = "*", features = ["derive"] }
serde_json = "*"
serde_json_lenient = "*"
tree-sitter = "*"
tree-sitter-json = "*"
