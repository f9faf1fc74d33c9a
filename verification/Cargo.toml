[package]
name = "bootc_lints"
version = "0.1.0"
edition = "2021"
publish = false

[dependencies]
anyhow = "=1.0.104"
cap-std = "=4.0.3"
rustix = { version = "=1.1.5", features = ["process", "thread"] }
serde_json = "=1.0.151"
uzers = "=0.12.2"

[dev-dependencies]
serde_yaml = "=0.9.34"
