[package]
name = "compare-packages"
version = "0.1.0"
edition = "2021"
publish = false

[dependencies]
rpm = { version = "=0.30.2", default-features = false }
rpm-version = "=0.5.1"
reqwest = { version = "=0.12.28", default-features = false, features = ["json", "rustls-tls"] }
tokio = { version = "=1.54.1", features = ["macros", "rt-multi-thread"] }
serde = { version = "=1.0.229", features = ["derive"] }
serde_json = "=1.0.154"
inquire = "=0.9.4"
env_logger = "=0.11.11"
log = "=0.4.35"
