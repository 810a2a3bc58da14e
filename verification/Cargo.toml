[package]
name = "flight_dispatcher"
version = "0.1.0"
edition = "2021"
publish = false

[dependencies]
regex = "*"
tokio = { version = "*", features = ["sync", "rt", "rt-multi-thread", "macros"] }

[dev-dependencies]
uuid = { version = "*", features = ["v4"] }
