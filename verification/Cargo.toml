[package]
name = "classification_service"
version = "0.1.0"
edition = "2021"
publish = false

[dependencies]
actix = "*"
actix-cors = "*"
actix-files = "*"
actix-web = "*"
env_logger = "*"
rust-bert = { version = "*", default-features = false }
serde = { version = "*", features = ["derive"] }
text-splitter = { version = "=0.33.0", features = ["tokenizers"] }
thiserror = "*"
tokenizers = { version = "=0.23.2", default-features = false, features = ["fancy-regex"] }
