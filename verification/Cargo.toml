[package]
name = "lspyx"
version = "0.1.0"
edition = "2021"
publish = false

[dependencies]
anyhow = "1"
clap = { version = "4", features = ["derive"] }
libc = "0.2"
rmcp = { version = "*", features = ["server", "macros", "transport-io"] }
schemars = "*"
serde = { version = "1", features = ["derive"] }
serde_json = "1"
similar = "2"
tokio = { version = "1", features = ["rt-multi-thread", "io-std"] }
url = "2"
which = "*"
