[package]
name = "klines"
version = "0.1.0"
edition = "2021"
publish = false

[dependencies]
tokio = { version = "*", features = ["full"] }
reqwest = { version = "*", default-features = false, features = ["rustls-tls", "stream"] }
sqlx = { version = "0.8", default-features = false, features = ["runtime-tokio", "tls-rustls", "postgres"] }
async_zip = { version = "*", features = ["tokio", "deflate"] }
futures = "*"
anyhow = "*"
serde = { version = "*", features = ["derive"] }
serde_json = "*"
