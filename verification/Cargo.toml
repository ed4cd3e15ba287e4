[package]
name = "stub"
version = "0.1.0"
edition = "2021"
publish = false

[dependencies]
anyhow = "1"
async-trait = "0.1"
dotenv = "0.15"
futures = "0.3"
glob = "0.3"
inquire = "*"
regex = "1"
serde = { version = "1", features = ["derive"] }
serde_json = "1"
similar = "2"
tokio = { version = "1", features = ["full"] }
walkdir = "2"
