[package]
name = "broadcast_hub"
version = "0.1.0"
edition = "2021"
publish = false

[dependencies]
actix-web = "*"
anyhow = "*"
chrono = { version = "*", features = ["serde"] }
dotenv = "*"
env_logger = "*"
futures = "*"
log = "*"
serde = { version = "*", features = ["derive"] }
serde_json = "*"
takecell = "=0.1.1"
teloxide = { version = "=0.12.2", features = ["macros"] }
tokio = { version = "*", features = ["macros", "rt-multi-thread"] }
