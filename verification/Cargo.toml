[package]
name = "otlp-embedded"
version = "0.1.0"
edition = "2021"
publish = false

[dependencies]
schnellru = "=0.2.4"
get-size2 = "=0.11.1"
serde_json = "=1.0.154"
itertools = "=0.15.0"
serde = { version = "=1.0.229", features = ["derive"] }
axum = "=0.8.9"
tokio = { version = "=1.54.1", features = ["full"] }
tonic = "=0.14.6"
rust-embed = { version = "=8.13.0", features = ["mime-guess"] }
opentelemetry-proto = { version = "=0.33.1", features = ["gen-tonic", "trace", "with-serde"] }

[dev-dependencies]
hex = "=0.4.3"
