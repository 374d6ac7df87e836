[package]
name = "webtop"
version = "0.1.0"
edition = "2021"
publish = false

[dependencies]
axum = { version = "0.8", features = ["ws"] }
chrono = "0.4"
clap = { version = "4", features = ["derive"] }
if-addrs = "*"
libc = "0.2"
macmon = "*"
objc2-core-foundation = "*"
objc2-core-wlan = "*"
objc2-io-kit = "*"
objc2-system-configuration = "*"
rusqlite = { version = "*", features = ["bundled"] }
serde = { version = "1", features = ["derive"] }
serde_json = "1"
sysinfo = "*"
tokio = { version = "1", features = ["full"] }
tower-http = { version = "0.6", features = ["compression-full"] }
tracing = "0.1"
tracing-subscriber = "0.3"
