[package]
name = "cargo-mend"
version = "0.1.0"
edition = "2021"
publish = false

[dependencies]
anyhow = "=1.0.104"
clap = { version = "=4.6.7", features = ["derive"] }
serde = { version = "=1.0.229", features = ["derive"] }
serde_json = "=1.0.154"
syn = { version = "=3.0.9", features = ["full", "visit"] }
proc-macro2 = "=1.0.107"
quote = "=1.0.47"
