[package]
name = "brev"
version = "0.1.0"
edition = "2021"
publish = false

[dependencies]
base64 = "0.21"
email_address = "0.2"
tokio = { version = "1", features = ["io-util", "net", "rt-multi-thread", "macros", "sync", "time"] }
tokio-rustls = "0.24"
rustls = "0.21"
futures-util = "0.3"
anyhow = "1"
async-trait = "0.1"
rcgen = "0.11"
secrecy = "0.8"
