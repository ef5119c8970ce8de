[package]
name = "counter_bookmarks"
version = "0.1.0"
edition = "2021"
publish = false

[dependencies]
secret-cosmwasm-std = "=1.1.11"
secret-toolkit = { version = "=0.10.3", features = ["permit"] }
schemars = "=0.8.22"
serde = { version = "=1.0.229", features = ["derive"] }
