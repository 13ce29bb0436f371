[package]
name = "qres_core"
version = "0.1.0"
edition = "2021"
publish = false

[dependencies]
blake3 = "1"
x25519-dalek = { version = "2", features = ["static_secrets"] }
rand_chacha = "0.3"
curve25519-dalek = { version = "4", features = ["rand_core", "serde"] }
fixed = "1"
serde = { version = "1", features = ["derive"] }
serde_json = "1"
walkdir = "2"
rand = "0.8"
libm = "0.2"
byteorder = "1"
anyhow = "1"
clap = { version = "4", features = ["derive"] }
lazy_static = "1"
