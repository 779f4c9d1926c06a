[package]
name = "bonsai"
version = "0.1.0"
edition = "2021"
publish = false

[dependencies]
regex = "=1.13.1"
time = { version = "=0.3.55", features = ["parsing", "macros"] }
tokio = { version = "=1.54.1", features = ["sync", "rt", "rt-multi-thread", "macros", "time", "process", "signal", "io-util"] }
uuid = { version = "=1.29.0", features = ["v4"] }
serde = { version = "=1.0.229", features = ["derive"] }
serde_json = "=1.0.154"
base32 = "=0.4.0"
rand = "=0.8.8"
totp-lite = "=2.0.1"
urlencoding = "=2.1.3"
jsonwebtoken = "=9.3.1"
libc = "=0.2.191"
serde_yaml = "=0.9.34"
reqwest = { version = "0.12", default-features = false, features = ["rustls-tls"] }
