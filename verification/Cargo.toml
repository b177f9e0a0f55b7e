[package]
name = "rustyproxy_srv"
version = "0.1.0"
edition = "2021"
publish = false

[dependencies]
anyhow = "*"
futures = "*"
opentelemetry = "*"
opentelemetry_sdk = "*"
rusqlite = { version = "*", features = ["bundled"] }
serde = { version = "*", features = ["derive"] }
tarpc = { version = "*", features = ["full"] }
tokio = { version = "*", features = ["macros", "rt-multi-thread", "net", "time"] }
tracing = "*"
tracing-opentelemetry = "*"
tracing-subscriber = { version = "*", features = ["env-filter", "fmt"] }
