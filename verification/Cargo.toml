[package]
name = "backend"
version = "0.1.0"
edition = "2021"
publish = false

[dependencies]
axum = "=0.8.9"
chrono = "=0.4.45"
chrono-tz = "=0.10.4"
dotenvy = "=0.15.7"
percent-encoding = "=2.3.2"
reqwest = { version = "=0.13.5", features = ["cookies", "json", "form", "query"] }
serde = { version = "=1.0.229", features = ["derive"] }
serde_json = "=1.0.154"
tokio = { version = "=1.54.1", features = ["full"] }
tower-http = { version = "=0.7.1", features = ["cors"] }
tracing = "=0.1.44"
tracing-subscriber = { version = "=0.3.23", features = ["env-filter"] }
