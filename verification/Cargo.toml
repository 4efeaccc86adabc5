[package]
name = "imagemap"
version = "0.1.0"
edition = "2021"
publish = false

[dependencies]
axum = "0.8"
dotenvy = "0.15"
rand = "0.8"
serde_json = "1"
tokio = { version = "1", features = ["macros", "net", "rt-multi-thread"] }
