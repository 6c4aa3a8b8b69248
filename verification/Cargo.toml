[package]
name = "blastguard"
version = "0.1.0"
edition = "2021"
publish = false

[dependencies]
strsim = "0.11"
seahash = "4"
serde = { version = "1", features = ["derive"] }
serde_json = "1"
toml = "0.8"
thiserror = "2"
anyhow = "1"
tracing = "0.1"
tracing-subscriber = { version = "0.3", features = ["env-filter", "json"] }
tokio = { version = "1", features = ["rt-multi-thread", "macros", "sync", "time"] }
rmcp = { version = "*", features = ["server"] }
schemars = "*"
ignore = "0.4"
notify = "*"
notify-debouncer-mini = "*"
rayon = "1"
regex = "1"
blake3 = "1"
tree-sitter = "*"
tree-sitter-rust = "*"
tree-sitter-python = "*"
tree-sitter-javascript = "*"
tree-sitter-typescript = "*"
streaming-iterator = "0.1"

[dev-dependencies]
tempfile = "3"
