[package]
name = "trx-client"
version = "0.1.0"
edition = "2021"
publish = false

[dependencies]
hex = "=0.4.3"
rand = "=0.9.5"
uuid = { version = "=1.29.0", features = ["v4", "serde"] }
flate2 = "=1.1.10"
serde = { version = "=1.0.229", features = ["derive"] }
serde_json = "=1.0.154"
toml = "=0.8.23"
clap = { version = "=4.6.7", features = ["derive"] }
dirs = "=6.0.0"
pickledb = "=0.5.1"
bytes = "=1.12.1"
futures-util = "=0.3.34"
tokio = { version = "=1.54.1", features = ["full"] }
tokio-stream = { version = "=0.1.19", features = ["sync"] }
tracing = "=0.1.44"
actix-web = "=4.18.1"
actix-ws = "=0.3.1"
cpal = "=0.15.3"
opus = "=0.3.1"
objc2 = "0.6"
objc2-foundation = "0.3"
objc2-app-kit = "0.3"
