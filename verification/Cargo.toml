[package]
name = "unreal_completion"
version = "0.1.0"
edition = "2021"
publish = false

[dependencies]
rusqlite = { version = "*", features = ["bundled"] }
tree-sitter = "*"
serde_json = "*"

[dev-dependencies]
