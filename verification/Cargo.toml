[package]
name = "warp_cors"
version = "0.1.0"
edition = "2021"
publish = false

[dependencies]
warp = { version = "=0.3.7", default-features = false }
url = "=2.5.8"
reqwest = { version = "=0.11.27", default-features = false, features = ["stream", "rustls-tls"] }
tokio = { version = "=1.54.1", features = ["macros", "signal", "rt-multi-thread"] }
clap = "=2.34.0"
futures-util = "=0.3.34"
log = "=0.4.35"
pretty_env_logger = "=0.4.0"
serde = { version = "=1.0.229", features = ["derive"] }
