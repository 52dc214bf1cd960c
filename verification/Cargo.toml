[package]
name = "gpui-preview"
version = "0.1.0"
edition = "2021"
publish = false

[dependencies]
serde = { version = "=1.0.229", features = ["derive"] }
serde_json = "=1.0.154"
syn = { version = "=2.0.119", features = ["full"] }
quote = "=1.0.47"
proc-macro2 = "=1.0.107"
anyhow = "=1.0.104"
inventory = "=0.3.25"
image = { version = "=0.25.10", default-features = false, features = ["png"] }
