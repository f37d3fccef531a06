[package]
name = "conlang_studio"
version = "0.1.0"
edition = "2021"
publish = false

[dependencies]
argon2 = "0.5"
askama = "=0.12.1"
axum = "=0.7.9"
rusqlite = { version = "=0.30.0", features = ["bundled"] }
serde = { version = "=1.0.229", features = ["derive"] }
time = "=0.3.55"
tokio = { version = "=1.54.1", features = ["full"] }
tower-sessions = "=0.11.1"
tower-sessions-rusqlite-store = "=0.11.1"
