[package]
name = "lib_rrttp"
version = "0.1.0"
edition = "2021"
publish = false

[dependencies]
bincode = "=1.3.3"
serde = { version = "=1.0.229", features = ["derive"] }
log = "=0.4.35"
thiserror = "=1.0.69"
anyhow = "=1.0.104"
fern = "=0.6.2"
humantime = "=2.4.0"
infer = "0.15"
