[package]
name = "nautilus_history"
version = "0.1.0"
edition = "2021"
publish = false

[dependencies]
ahash = "*"
anyhow = "*"
jiff = "*"
log = "*"
pyo3 = "*"
serde = { version = "*", features = ["derive"] }
serde_json = "*"
