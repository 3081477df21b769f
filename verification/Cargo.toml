[package]
name = "logic_mesh"
version = "0.1.0"
edition = "2021"
publish = false

[dependencies]
uuid = { version = "1", features = ["v4"] }
rand = "0.9"
libhaystack = "*"
tokio = { version = "1", features = ["rt", "sync", "time", "macros"] }
futures = "0.3"
log = "0.4"
anyhow = "1"
