[package]
name = "ocypode"
version = "0.1.0"
edition = "2021"
publish = false

[dependencies]
bytes = "=1.12.1"
anyhow = "=1.0.104"
thiserror = "=2.0.21"
tracing = "=0.1.44"
tracing-subscriber = { version = "=0.3.23", features = ["env-filter"] }
compio = { version = "=0.19.2", features = ["quic", "net", "ring"] }
rcgen = "=0.14.10"
rustls-pki-types = "=1.15.1"
