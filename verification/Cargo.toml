[package]
name = "chess_mg"
version = "0.1.0"
edition = "2021"
publish = false

[dependencies]
rustc-hash = "2"
rand = "0.9"
serde = { version = "1", features = ["derive"] }
bincode = { version = "2", features = ["serde"] }
