[package]
name = "meta_indexer"
version = "0.2.0"
edition = "2021"
publish = false

[dependencies]
regex = "1"
fuzzy-matcher = "0.3"
serde = { version = "1", features = ["derive"] }
serde_json = "1"
ignore = "0.4"
notify = "6"
once_cell = "1"
tree-sitter = "*"
tree-sitter-typescript = "*"
axum = "0.7"
tokio = { version = "1", features = ["macros", "rt-multi-thread", "net", "io-std"] }
tower-http = { version = "*", features = ["cors"] }
