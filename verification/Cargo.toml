[package]
name = "broker"
version = "0.1.0"
edition = "2021"
publish = false

[dependencies]
quick-xml = "*"
dashmap = "*"
tokio = { version = "*", features = ["full"] }
axum = "*"
tracing = "*"
tracing-subscriber = { version = "*", features = ["env-filter", "fmt"] }
