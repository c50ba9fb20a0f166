[package]
name = "stormconsole"
version = "0.20.0"
edition = "2021"
publish = false

[dependencies]
base64 = "0.22"
chrono = { version = "0.4", default-features = false, features = ["std", "clock"] }
serde = { version = "1", features = ["derive"] }
serde_json = "1"
serde_yaml = "0.9"
axum = { version = "0.8", features = ["ws"] }
tokio = { version = "1", features = ["full"] }
tokio-util = "0.7"
async-trait = "0.1"
futures-util = "0.3"
reqwest = { version = "0.12", default-features = false, features = ["json", "stream"] }
tracing = "0.1"
redb = "2"
socket2 = "0.5"
tokio-tungstenite = "0.26"
thiserror = "2"

[dev-dependencies]
tempfile = "3"
