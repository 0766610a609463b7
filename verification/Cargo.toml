[package]
name = "secret_santa"
version = "0.1.0"
edition = "2021"
publish = false

[dependencies]
rand = "0.8"
serde = { version = "1", features = ["derive"] }
serde_json = "1"
actix-web = "4"
actix-files = "*"
actix-cors = "*"
dotenv = "*"
env_logger = "*"
log = "*"
tokio = { version = "1", features = ["macros", "rt-multi-thread", "process"] }
derive_more = "0.99"
bore-cli = "*"
