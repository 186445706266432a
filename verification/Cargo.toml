[package]
name = "secretd"
version = "0.1.0"
edition = "2021"
publish = false

[dependencies]
byteorder = "1"
env_logger = "0.11"
libc = "0.2"
log = "0.4"
num-bigint = { version = "0.4", features = ["rand"] }
page_size = "0.6"
rand = "0.8"
reqwest = { version = "0.12", default-features = false, features = ["json", "rustls-tls"] }
serde = { version = "1", features = ["derive"] }
serde_json = "1"
tokio = { version = "1", features = ["rt-multi-thread"] }
