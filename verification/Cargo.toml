[package]
name = "telemetry_transport"
version = "0.1.0"
edition = "2021"
publish = false

[dependencies]
bytes = "=1.12.1"
chrono = "=0.4.45"
tokio = { version = "=1.53.2", features = ["net", "rt", "macros", "sync", "time", "signal"] }
