[package]
name = "microwaf"
version = "0.1.0"
edition = "2021"
publish = false

[dependencies]
anyhow = "=1.0.104"
arc-swap = "=1.9.3"
cel-interpreter = "=0.10.0"
chrono = "=0.4.45"
clap = { version = "=4.6.7", features = ["derive", "env"] }
humantime = "=2.4.0"
libc = "=0.2.191"
nix = { version = "=0.29.0", features = ["user", "poll", "term", "signal", "net"] }
notify = "=6.1.1"
parking_lot = "=0.12.5"
redis = "=0.25.5"
serde = { version = "=1.0.229", features = ["derive"] }
serde_json = "=1.0.154"
serde_yaml = "=0.9.34"
thiserror = "=1.0.69"
tracing = "=0.1.44"
tracing-subscriber = { version = "=0.3.23", features = ["env-filter"] }
