[package]
name = "amqp_patterns"
version = "0.1.0"
edition = "2021"
publish = false

[dependencies]
clap = { version = "3", features = ["derive"] }
lapin = { version = "1", default-features = false }
tokio = { version = "1", features = ["macros", "rt-multi-thread", "time"] }
tokio-amqp = { version = "1", default-features = false }
uuid = { version = "0.8", features = ["v4"] }
