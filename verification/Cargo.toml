[package]
name = "lightr_cri"
version = "0.1.0"
edition = "2021"
publish = false

[dependencies]
blake3 = { version = "1", default-features = false }
libc = "0.2"
nix = { version = "0.29", features = ["term"] }
serde = { version = "1", features = ["derive"] }
serde_json = "1"
tokio = { version = "1", features = ["rt", "rt-multi-thread", "net", "io-util", "sync", "time", "macros", "fs", "signal"] }
tonic = { version = "0.12", default-features = false, features = ["codegen"] }
