[package]
name = "shell"
version = "0.1.0"
edition = "2021"
publish = false

[dependencies]
anyhow = "1"
rustyline = { version = "*", features = ["derive"] }

[dev-dependencies]
tempfile = "3"
