[package]
name = "notifykit"
version = "0.1.0"
edition = "2021"
publish = false

[dependencies]
file-id = "0.2"
notify = "6.1"
regex = "1"
tokio = { version = "1", features = ["rt-multi-thread", "sync", "time", "macros"] }
pyo3 = "0.20"
pyo3-asyncio = { version = "0.20", features = ["tokio-runtime"] }
