[package]
name = "observer"
version = "0.1.0"
edition = "2021"
publish = false

[dependencies]
ackorelic = "=0.1.11"
chrono = { version = "=0.4.45", features = ["serde"] }
failure = "=0.1.8"
lazy_static = "=1.5.1"
proc-macro2 = "=0.4.30"
quote = "=0.6.13"
serde = { version = "=1.0.229", features = ["derive"] }
serde_json = "=1.0.154"
syn = { version = "=0.15.44", features = ["full", "extra-traits"] }
uuid = { version = "=1.29.0", features = ["v4"] }
