[package]
name = "mock-oracle"
version = "0.1.0"
edition = "2021"
publish = false

[dependencies]
aes = "0.8"
bigdecimal = "0.4"
cbc = { version = "0.1", features = ["alloc"] }
chrono = "0.4"
hex = "0.4"
napi = { version = "2", default-features = false, features = ["napi4", "tokio_rt", "async"] }
napi-derive = "2"
pbkdf2 = { version = "0.12", features = ["hmac"] }
rand = "0.8"
sha2 = "0.10"
thiserror = "1"
tokio = { version = "1", features = ["net", "io-util", "rt", "rt-multi-thread", "macros", "sync", "signal"] }
tracing = "0.1"
tracing-subscriber = { version = "0.3", features = ["env-filter"] }
