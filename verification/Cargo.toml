[package]
name = "xutex"
version = "0.2.0"
edition = "2021"
publish = false

[dependencies]
branches = "*"
crossbeam-queue = "*"

[dev-dependencies]
tokio = { version = "1", default-features = false, features = ["rt", "rt-multi-thread"] }
loom = { version = "*", features = ["futures"] }
