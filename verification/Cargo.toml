[package]
name = "framework_service"
version = "0.1.0"
edition = "2021"
publish = false

[dependencies]
tokio = { version = "1", features = ["process", "time", "fs", "sync", "rt", "macros", "io-util"] }
tracing = "0.1"
which = "*"
serde = { version = "1", features = ["derive"] }
poem-openapi = "5"
