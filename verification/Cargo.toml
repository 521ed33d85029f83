[package]
name = "rustchan"
version = "0.1.0"
edition = "2021"
publish = false

[dependencies]
anyhow = "=1.0.104"
axum = { version = "=0.7.9", features = ["multipart"] }
chrono = { version = "=0.4.45", features = ["serde"] }
hex = "=0.4.3"
regex = "=1.13.1"
serde = { version = "=1.0.229", features = ["derive"] }
sha2 = "=0.10.9"
sqlx = { version = "=0.7.4", default-features = false, features = ["runtime-tokio", "sqlite", "chrono"] }
tera = "=1.20.1"
tokio = { version = "=1.54.1", features = ["macros", "rt-multi-thread", "fs", "net", "io-util"] }
tower-http = { version = "=0.5.2", features = ["fs", "trace"] }
tracing = "=0.1.44"
tracing-subscriber = "=0.3.23"
uuid = { version = "=1.29.0", features = ["v4"] }
