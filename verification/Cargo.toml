[package]
name = "proxishare"
version = "0.1.0"
edition = "2021"
publish = false

[dependencies]
blake3 = "*"
rand = "*"
tokio = { version = "*", features = ["full"] }
quinn = "*"
rustls = "*"
rcgen = "*"
fs2 = "*"
if-addrs = "*"
hostname = "*"
uuid = { version = "*", features = ["v4"] }
serde = { version = "*", features = ["derive"] }
serde_json = "*"
mdns-sd = "*"
