[package]
name = "systeml"
version = "0.1.0"
edition = "2021"
publish = false

[dependencies]
anyhow = "=1.0.104"
clap = { version = "=4.6.7", features = ["derive"] }
dirs = "=5.0.1"
futures = "=0.3.34"
indexmap = "=2.14.2"
libc = "=0.2.191"
nix = { version = "=0.29.0", features = ["fs", "process", "signal", "socket", "user", "event", "net"] }
serde = "=1.0.229"
serde_json = "=1.0.154"
time = { version = "=0.3.55", features = ["formatting", "parsing"] }
tokio = { version = "=1.54.1", features = ["full"] }
tracing = "=0.1.44"
tracing-subscriber = { version = "=0.3.23", features = ["env-filter"] }
zbus = { version = "=4.4.0", default-features = false, features = ["tokio", "p2p"] }
