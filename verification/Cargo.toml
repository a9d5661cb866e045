[package]
name = "telemetry_log"
version = "0.1.0"
edition = "2021"
publish = false

[dependencies]
sled = "=0.34.7"
chrono = "=0.4.45"
tempfile = "=3.27.0"
serde = { version = "1", features = ["derive"] }
serde_json = "1"
tokio = { version = "=1.53.2", features = ["full"] }
tokio-tungstenite = "=0.30.0"
futures = "0.3"
futures-timer = "3"
url = "2"
warp = { version = "=0.4.3", features = ["server"] }
bytes = "1"
structopt = "0.3"
env_logger = "0.11"
