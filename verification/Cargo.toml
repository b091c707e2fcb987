[package]
name = "mpd2k"
version = "0.1.0"
edition = "2021"
publish = false

[dependencies]
audiotags = "0.5"
base16ct = { version = "0.2", features = ["alloc"] }
chrono = { version = "0.4", default-features = false, features = ["std"] }
csv = "1"
dirs = "5"
murmur3 = "0.5"
rand = "0.8"
serde = { version = "1", features = ["derive"] }
sha2 = "0.10"
thiserror = "1"
tokio = { version = "1", features = ["rt-multi-thread", "sync"] }
toml = "0.8"
tracing = "0.1"
walkdir = "2"
xxhash-rust = { version = "0.8", features = ["xxh3"] }
