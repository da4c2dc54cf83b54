[package]
name = "vdom_arena"
version = "0.1.0"
edition = "2021"
publish = false

[dependencies]
brotli = "*"
walkdir = "*"
serde = { version = "*", features = ["derive"] }
serde_json = "*"
