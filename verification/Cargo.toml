[package]
name = "portfolio"
version = "0.1.0"
edition = "2021"
publish = false

[dependencies]
tokio = { version = "=1.53.2", features = ["rt", "rt-multi-thread", "macros"] }
rustc-serialize = "=0.3.25"
serde = { version = "=1.0.229", features = ["derive"] }
futures = "=0.3.34"
mongodb = "=2.8.2"
native-dialog = "=0.6.4"
const_env = "=0.1.5"
image = { version = "=0.24.9", default-features = false, features = ["png", "jpeg"] }
