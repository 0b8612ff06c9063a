[package]
name = "frigate_popup"
version = "0.1.0"
edition = "2021"
publish = false

[dependencies]
serde = { version = "1", features = ["derive"] }
serde_json = "1"
toml = "*"
anyhow = "1"
thiserror = "2"
tracing = "0.1"
tracing-subscriber = { version = "0.3", features = ["env-filter"] }
tracing-appender = "0.2"
dirs = "*"
tokio = { version = "1", features = ["rt", "macros", "time", "sync"] }
rumqttc = { version = "*", default-features = false }
