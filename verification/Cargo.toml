[package]
name = "m3u_filter"
version = "0.1.0"
edition = "2021"
publish = false

[dependencies]
axum = "0.8"
bytes = "=1.12.1"
chrono = "=0.4.45"
flate2 = "1"
futures = "=0.3.34"
jsonwebtoken = "=9.3.1"
quick-xml = "0.37"
rand = "=0.9.5"
serde = { version = "=1.0.229", features = ["derive"] }
serde_json = "=1.0.154"
tokio = { version = "=1.54.1", features = ["sync", "rt", "macros", "time"] }
