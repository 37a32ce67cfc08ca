[package]
name = "surrealkit"
version = "0.1.0"
edition = "2021"
publish = false

[dependencies]
anyhow = "1"
clap = { version = "4", features = ["derive"] }
hex = "0.4"
regex = "1"
reqwest = { version = "0.12", default-features = false, features = ["json"] }
rust_dotenv = "*"
serde = { version = "1", features = ["derive"] }
serde_json = "1"
sha2 = "0.10"
surrealdb = "3"
surrealdb-types = "3"
time = { version = "0.3", features = ["formatting"] }
tokio = { version = "1", features = ["full"] }
toml = "0.8"
walkdir = "2"
