[package]
name = "buoyant_kernel"
version = "0.1.0"
edition = "2021"
publish = false

[dependencies]
bytes = "1"
tracing = "0.1"
tracing-subscriber = "0.3"
url = "2"
uuid = { version = "1", features = ["v4"] }

[dev-dependencies]
serde_json = "1"
