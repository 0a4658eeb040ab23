[package]
name = "ring_reactor"
version = "0.1.0"
edition = "2021"
publish = false

[dependencies]
tokio = { version = "=1.53.2", default-features = false, features = ["sync"] }
io-uring = "=0.7.15"

[dev-dependencies]
futures = "=0.3.34"
