[package]
name = "resc_client"
version = "0.1.0"
edition = "2021"
publish = false

[dependencies]
sha2 = "=0.10.9"
serde_json = "=1.0.154"
log = "=0.4.35"
anyhow = "=1.0.104"
clap = { version = "=4.6.7", features = ["derive"] }
env_logger = "=0.11.11"
libc = "=0.2.191"
tokio = { version = "1", features = ["full"] }
prost = "*"
flume = "*"
mdns-sd = "*"
ffmpeg-next = "*"
ffmpeg-sys-next = "*"
sdl2 = "*"
