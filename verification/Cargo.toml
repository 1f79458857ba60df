[package]
name = "wpbl"
version = "0.1.0"
edition = "2021"
publish = false

[dependencies]
anyhow = "1"
hex = "=0.4.3"
log = "0.4"
pretty_env_logger = "*"
reqwest = { version = "=0.13.5", default-features = false, features = ["query"] }
rusqlite = { version = "=0.40.2", features = ["bundled"] }
serde = { version = "1", features = ["derive"] }
serde_json = "1"
structopt = "=0.3.26"
tokio = { version = "=1.53.2", features = ["macros", "rt-multi-thread"] }
