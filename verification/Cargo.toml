[package]
name = "saizefs"
version = "0.1.0"
edition = "2021"
publish = false

[dependencies]
rs9p = "=0.13.0"
rusqlite = { version = "=0.40.2", features = ["bundled"] }
libc = "=0.2.190"
env_logger = "=0.11.11"
async-trait = "*"
tokio = { version = "*", features = ["rt-multi-thread"] }
