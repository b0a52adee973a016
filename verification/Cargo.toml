[package]
name = "cratetorrent"
version = "0.1.0"
edition = "2021"
publish = false

[dependencies]
bitvec = "0.17"
bytes = "0.5"
cfg-if = "0.1"
env_logger = "0.7"
futures = "0.3"
hex = "0.4"
lazy_static = "1.4"
log = "0.4"
nix = "0.17"
reqwest = { version = "0.10", default-features = false }
serde = { version = "1", features = ["derive"] }
serde_bencode = "0.2"
serde_bytes = "0.11"
serde_derive = "1"
sha-1 = "0.8"
structopt = "0.3"
termion = "1.5"
tokio = { version = "0.2", features = ["full"] }
tokio-util = { version = "0.3", features = ["codec"] }
tui = "0.12"
url = "2"
