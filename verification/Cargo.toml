[package]
name = "payments-engine"
version = "0.1.0"
edition = "2021"
publish = false

[dependencies]
csv = "1"
eyre = "0.6"
rust_decimal = "1"
serde = { version = "1", features = ["derive"] }
tracing = "0.1"
tracing-subscriber = "0.3"
