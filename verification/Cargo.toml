[package]
name = "otlp_ingest"
version = "0.1.0"
edition = "2021"
publish = false

[dependencies]
opentelemetry-proto = { version = "=0.33.0", default-features = false, features = ["gen-tonic-messages", "metrics", "with-serde"] }
prost = "=0.14.4"
serde_json = "=1.0.151"
chrono = "=0.4.45"
libm = "=0.2.16"
