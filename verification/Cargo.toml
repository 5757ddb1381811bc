[package]
name = "packet_radio"
version = "0.1.0"
edition = "2021"
publish = false

[dependencies]
ax25 = "=0.4.0"
regex = "=1.13.1"
percent-encoding = "=2.3.2"
serde = { version = "=1.0.229", features = ["derive"] }
toml = "=0.8.23"
directories = "=5.0.1"
async-channel = "=2.5.0"
anyhow = "=1.0.104"
thiserror = "=1.0.69"
tracing = "=0.1.44"
tracing-subscriber = "=0.3.23"
libc = "=0.2.191"
ureq = "=3.5.1"
portable-pty = "=0.9.0"
serialport = { version = "=4.10.1", default-features = false }
tokio = { version = "=1.54.1", features = ["rt-multi-thread", "sync"] }
futures = "=0.3.34"
btleplug = "=0.13.5"
uuid = "=1.29.0"
gtk4 = { version = "=0.11.5", features = ["v4_12"] }
libadwaita = { version = "=0.9.2", features = ["v1_5"] }
