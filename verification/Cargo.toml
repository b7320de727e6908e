[package]
name = "ai_forensics"
version = "0.1.0"
edition = "2021"
publish = false

[dependencies]
anyhow = "=1.0.104"
aya = "=0.14.0"
aya-log = "=0.3.0"
env_logger = "=0.11.11"
futures-util = "=0.3.34"
log = "=0.4.34"
serde = { version = "=1.0.229", features = ["derive"] }
serde_json = "=1.0.151"
tokio = { version = "=1.53.2", features = ["macros", "rt-multi-thread", "signal", "sync"] }
warp = { version = "=0.4.3", features = ["server", "websocket"] }
