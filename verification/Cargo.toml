[package]
name = "multiplayer_server"
version = "0.1.0"
edition = "2021"
publish = false

[dependencies]
crossbeam = "0.8"
tokio = { version = "1", features = ["rt-multi-thread", "macros", "net", "sync", "time"] }
bincode = "1.3"
serde = { version = "1", features = ["derive"] }
glam = { version = "*", features = ["serde"] }
