[package]
name = "waf_console"
version = "2.0.3"
edition = "2021"
publish = false

[dependencies]
regex = "=1.13.1"
ipnet = "=2.12.2"
url = "=2.5.8"
uuid = { version = "=1.29.0", features = ["v4"] }
serde_json = "=1.0.154"
chrono = "=0.4.45"
anyhow = "=1.0.104"
axum = "=0.7.9"
tokio = { version = "=1.54.1", features = ["full"] }
tower-http = { version = "=0.5.2", features = ["set-header"] }
tracing = "=0.1.44"
reqwest = { version = "=0.12.28", features = ["blocking", "json"] }
native-tls = "=0.2.18"
once_cell = "=1.21.4"
sha1_smol = "1"

[dev-dependencies]
