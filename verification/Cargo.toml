[package]
name = "chat_core"
version = "0.1.0"
edition = "2021"
publish = false

[dependencies]
clap = { version = "4", features = ["derive"] }
env_logger = "0.11"
envy = "0.4"
futures-util = { version = "0.3", features = ["sink"] }
log = "0.4"
serde = { version = "1", features = ["derive"] }
tokio = { version = "1", features = ["full"] }
tokio-util = { version = "0.7", features = ["codec"] }
