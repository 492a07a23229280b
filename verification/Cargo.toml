[package]
name = "drafftink"
version = "0.1.0"
edition = "2021"
publish = false

[dependencies]
base64 = "0.22"
url = "2"
redis = { version = "*", features = ["tokio-comp", "connection-manager"] }
serde = { version = "1", features = ["derive"] }
serde_json = "1"
tokio = { version = "1", features = ["full"] }
axum = { version = "*", features = ["ws"] }
futures-util = { version = "0.3", features = ["sink"] }
tower-http = { version = "*", features = ["cors"] }
tracing = "0.1"
tracing-subscriber = { version = "0.3", features = ["env-filter"] }
uuid = { version = "1", features = ["v4"] }
dashmap = "*"
async-trait = "0.1"
tungstenite = "*"
log = "0.4"
