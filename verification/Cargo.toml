[package]
name = "lazyoav"
version = "0.1.0"
edition = "2021"
publish = false

[dependencies]
similar = "*"
libc = "*"
serde = { version = "*", features = ["derive"] }
serde_yaml = "*"
serde_json = "*"
walkdir = "*"
anyhow = "*"
