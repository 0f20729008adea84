[package]
name = "cviz"
version = "0.1.0"
edition = "2021"
publish = false

[dependencies]
wasmparser = "*"
serde = { version = "*", features = ["derive"] }
serde_json = "*"
anyhow = "*"
clap = { version = "4", features = ["derive"] }

[dev-dependencies]
wat = "*"
