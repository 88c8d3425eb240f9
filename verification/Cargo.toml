[package]
name = "oyo_core"
version = "0.1.0"
edition = "2021"
publish = false

[dependencies]
similar = "*"
serde = { version = "*", features = ["derive"] }
thiserror = "*"
