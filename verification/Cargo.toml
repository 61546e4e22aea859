[package]
name = "dropshare"
version = "0.1.0"
edition = "2021"
publish = false

[dependencies]
aead = { version = "0.5", features = ["stream", "alloc"] }
aes-gcm = "0.10"
base64 = "0.22"
rand = "*"
sha2 = "0.10"
hex = "0.4"
whoami = "*"
rustls-pemfile = "2"
rcgen = { version = "*", default-features = false, features = ["ring", "pem", "crypto"] }
anyhow = "1"
axum = { version = "0.8", features = ["multipart"] }
tokio = { version = "1", features = ["full"] }
tokio-util = { version = "0.7", features = ["io"] }
tokio-stream = "0.1"
clap = { version = "4", features = ["derive"] }
dialoguer = "*"
indicatif = "*"
local-ip-address = "*"
mdns-sd = "*"
qr2term = "*"
reqwest = { version = "0.12", default-features = false, features = ["rustls-tls", "multipart", "stream"] }
rustls = { version = "0.23", default-features = false, features = ["ring", "std", "logging", "tls12"] }
tokio-rustls = { version = "0.26", default-features = false, features = ["ring", "logging", "tls12"] }
hyper = { version = "1", features = ["server", "http1", "http2"] }
hyper-util = { version = "0.1", features = ["server", "server-auto", "tokio", "http1", "http2"] }
tower-service = "0.3"
