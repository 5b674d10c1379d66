[package]
name = "supersigil-lsp"
version = "0.1.0"
edition = "2021"
publish = false

[dependencies]
async-lsp = { version = "*", features = ["tokio"] }
futures = "0.3"
lsp-types = "*"
serde = { version = "1", features = ["derive"] }
serde_json = "1"
tokio = { version = "1", features = ["rt", "macros", "io-std"] }
tower = "*"
tracing = "0.1"
tracing-subscriber = "0.3"
