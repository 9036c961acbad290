[package]
name = "ebpf-xdp-program"
version = "0.1.0"
edition = "2021"
publish = false

[dependencies]
anyhow = "=1.0.104"
axum = "=0.8.9"
aya = "=0.13.1"
aya-ebpf = "=0.1.1"
aya-log = "=0.2.1"
clap = { version = "=4.6.7", features = ["derive", "env"] }
humantime = "=2.4.0"
libc = "=0.2.191"
log = "=0.4.35"
metrics = "=0.24.6"
metrics-exporter-prometheus = { version = "=0.16.2", default-features = false, features = ["http-listener"] }
reqwest = { version = "=0.12.28", default-features = false, features = ["json"] }
serde = { version = "=1.0.229", features = ["derive"] }
tokio = { version = "=1.54.1", features = ["macros", "rt-multi-thread", "net", "signal", "sync", "time"] }
tokio-util = "=0.7.20"
toml = "=0.8.23"
tracing = "=0.1.44"
tracing-subscriber = "=0.3.23"
