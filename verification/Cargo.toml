[package]
name = "aibook"
version = "0.1.0"
edition = "2021"
publish = false

[dependencies]
tiktoken-rs = "*"
serde_json = "*"
sanitize-filename = "*"
regex = "*"
html2text = "*"
reqwest = "*"
reqwest-middleware = "*"
reqwest-retry = "*"
tokio = { version = "*", features = ["macros", "rt-multi-thread"] }
clap = { version = "*", features = ["derive"] }
anyhow = "*"
eyre = "*"
epub = "*"
epub-builder = "*"
log = "*"
env_logger = "*"
indicatif = "*"
dotenv = "*"
chrono = "*"
serde = { version = "*", features = ["derive"] }
