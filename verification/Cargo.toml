[package]
name = "kwaainet"
version = "0.4.0"
edition = "2021"
publish = false

[dependencies]
dirs = "=5.0.1"
sha1 = "=0.10.7"
rmp-serde = "=1.3.1"
rmpv = "=1.3.1"
bs58 = "=0.5.1"
serde = { version = "=1.0.229", features = ["derive"] }
serde_json = "=1.0.154"
serde_yaml = "=0.9.34"
anyhow = "=1.0.104"
clap = { version = "=4.6.7", features = ["derive"] }
tokio = { version = "=1.54.1", features = ["full"] }
tracing = "=0.1.44"
tracing-subscriber = { version = "=0.3.23", features = ["env-filter"] }
hex = "=0.4.3"
nix = { version = "=0.29.0", features = ["fs", "signal"] }
sysinfo = "=0.30.13"
chrono = { version = "=0.4.45", features = ["serde"] }
libp2p = { version = "0.56", default-features = false, features = ["ed25519"] }
