[package]
name = "nota_bene"
version = "0.1.0"
edition = "2021"
publish = false

[dependencies]
anyhow = "*"
canonical_json = "=0.7.0"
clap = { version = "*", features = ["derive"] }
diffy = "=0.4.2"
indexmap = { version = "=2.14.2", features = ["serde"] }
jsonc-parser = "=0.34.0"
lru = "=0.19.0"
nbformat = "=1.2.2"
rmcp = { version = "=1.8.0", features = ["server", "macros", "transport-io"] }
serde = { version = "*", features = ["derive"] }
serde_json = "=1.0.154"
sha1 = "0.10"
tokio = { version = "*", features = ["full"] }
tower-lsp = "*"
uuid = { version = "=1.29.0", features = ["v4"] }
