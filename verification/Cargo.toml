[package]
name = "grid_combat"
version = "0.1.0"
edition = "2021"
publish = false

[dependencies]
fastrand = "2"
tokio = { version = "1", features = ["rt-multi-thread", "macros", "net", "io-util", "sync"] }
