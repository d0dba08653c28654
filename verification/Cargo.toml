[package]
name = "storage_engine"
version = "0.1.0"
edition = "2021"
publish = false

[dependencies]
anyhow = "1"
fjall = "2"
libsql = { version = "*", default-features = false, features = ["core"] }
sled = "0.34"
sqlite = "*"
tokio = { version = "1", features = ["rt", "rt-multi-thread", "macros", "fs"] }
