[package]
name = "ir_bridge"
version = "0.1.0"
edition = "2021"
publish = false

[dependencies]
bluer = { version = "*", features = ["bluetoothd"] }
env_logger = "*"
futures = "*"
tokio = { version = "*", features = ["macros", "rt", "io-std", "io-util", "time"] }
