[package]
name = "jitstreamer_eb"
version = "0.1.0"
edition = "2021"
publish = false

[dependencies]
sha2 = "=0.10.9"
sqlite = "=0.37.4"
idevice = { version = "=0.1.68", features = ["full"] }
tokio = { version = "=1.53.2", features = ["full"] }
axum = { version = "=0.8.9", features = ["ws"] }
axum-client-ip = "=1.3.1"
plist = "=1.10.1"
serde = { version = "=1.0.229", features = ["derive"] }
serde_json = "=1.0.151"
log = "=0.4.34"
env_logger = "=0.11.11"
dotenvy = "=0.15.7"
tower-http = { version = "=0.7.1", features = ["cors"] }
wg-config = "=0.0.8"
