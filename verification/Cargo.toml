[package]
name = "authvault"
version = "0.1.0"
edition = "2021"
publish = false

[dependencies]
argon2 = "=0.6.0"
jsonwebtoken = { version = "=11.1.0", features = ["rust_crypto"] }
chrono = "=0.4.45"
axum = "=0.8.9"
axum-extra = { version = "=0.12.6", features = ["cookie"] }
serde = { version = "=1.0.229", features = ["derive"] }
serde_json = "=1.0.151"
time = "=0.3.55"
tokio = { version = "=1.53.2", features = ["macros", "rt-multi-thread", "net"] }
uuid = { version = "=1.27.0", features = ["v4", "serde"] }
dotenvy = "=0.15.7"
