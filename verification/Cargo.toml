[package]
name = "call_tracer"
version = "0.1.0"
edition = "2021"
publish = false

[dependencies]
hex = "0.4"
serde = { version = "1", features = ["derive"] }
serde_json = "1"
tokio = { version = "1", features = ["macros", "rt-multi-thread"] }
axum = "0.8"
axum-server = "0.7"
tracing-subscriber = { version = "0.3", features = ["env-filter"] }
