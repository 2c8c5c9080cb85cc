[package]
name = "room_server"
version = "0.1.0"
edition = "2021"
publish = false

[dependencies]
anyhow = "=1.0.104"
axum = { version = "=0.7.9", features = ["ws"] }
base64 = "=0.22.1"
hmac = "=0.12.1"
http = "=1.5.0"
num_cpus = "=1.17.0"
serde = { version = "=1.0.229", features = ["derive"] }
serde_json = "=1.0.154"
sha1 = "=0.10.7"
tokio = { version = "=1.54.1", features = ["full"] }
tower-http = { version = "=0.5.2", features = ["trace"] }
tracing = "=0.1.44"
tracing-subscriber = { version = "=0.3.23", features = ["env-filter"] }
turn-server = { version = "=4.1.5", default-features = false, features = ["udp", "tcp"] }
uuid = { version = "=1.29.0", features = ["v4"] }
