[package]
name = "boards_api"
version = "0.1.0"
edition = "2021"
publish = false

[dependencies]
axum = { version = "*", default-features = false, features = ["http1", "json", "tokio"] }
diesel = { version = "*", features = ["postgres"] }
dotenv = "*"
serde = { version = "*", features = ["derive"] }
serde_json = "*"
solana-sdk = "=1.18.26"
tokio = { version = "*", features = ["rt-multi-thread", "macros", "net"] }
tracing = "*"
tracing-subscriber = "*"
