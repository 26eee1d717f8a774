[package]
name = "consumption_tracker"
version = "0.1.0"
edition = "2021"
publish = false

[dependencies]
chrono = { version = "*", default-features = false, features = ["std"] }
parity-scale-codec = "*"
serde = { version = "*", features = ["derive"] }
serde_json = "*"
toml = "*"
subxt = "*"
tokio = { version = "*", features = ["rt-multi-thread", "macros"] }
