[package]
name = "sse_pubsub"
version = "0.1.0"
edition = "2021"
publish = false

[dependencies]
actix-cors = "0.7"
actix-rt = "2"
actix-web = { version = "4", default-features = false, features = ["macros", "openssl"] }
bytes = "1"
clap = { version = "4", features = ["cargo"] }
env_logger = "0.11"
futures = "0.3"
openssl = "0.10"
serde = { version = "1", features = ["derive"] }
tokio = { version = "1", features = ["sync", "time", "rt", "macros"] }
