[package]
name = "link_checker"
version = "0.1.0"
edition = "2021"
publish = false

[dependencies]
async-std = "=1.13.2"
env_logger = "=0.11.11"
failure = "=0.1.8"
futures = "=0.3.34"
lazy_static = "=1.5.1"
log = "=0.4.34"
pulldown-cmark = { version = "=0.13.5", default-features = false }
regex = "=1.13.1"
reqwest = { version = "=0.12.28", default-features = false, features = ["rustls-tls"] }
scraper = "=0.29.0"
serde = { version = "=1.0.229", features = ["derive"] }
serde_yaml = "=0.9.34"
tokio = { version = "=1.54.1", features = ["macros", "rt-multi-thread"] }
