[package]
name = "rtsp_client"
version = "0.1.0"
edition = "2021"
publish = false

[dependencies]
anyhow = "1"
bytes = "1"
clap = { version = "4", features = ["derive"] }
env_logger = "0.10"
http-auth = "0.1"
log = "0.4"
rand = "0.8"
sdp-types = "0.1"
thiserror = "1"
tokio = { version = "1", features = ["net", "io-util", "rt-multi-thread", "macros", "sync", "time"] }
tokio-stream = "0.1"
url = "2"
