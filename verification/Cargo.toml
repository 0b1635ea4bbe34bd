[package]
name = "balloons"
version = "0.1.0"
edition = "2021"
publish = false

[dependencies]
uuid = { version = "1", features = ["v4"] }
actix-files = "0.6"
actix-web = { version = "4", default-features = false, features = ["macros"] }
actix-ws = "0.3"
env_logger = "0.11"
futures = "0.3"
log = "0.4"
rand = "0.8"
serde = { version = "1", features = ["derive"] }
serde_json = "1"
tokio = { version = "1", features = ["sync", "time", "rt", "macros"] }
