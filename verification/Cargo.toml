[package]
name = "logbase"
version = "0.1.0"
edition = "2021"
publish = false

[dependencies]
anyhow = "=1.0.104"
axum = "=0.6.20"
scylla = "0.9"
serde = { version = "=1.0.229", features = ["derive"] }
tokio = { version = "=1.54.1", features = ["macros", "rt-multi-thread"] }
tower = "=0.4.13"
tower-http = { version = "=0.4.4", features = ["catch-panic", "compression-gzip"] }
validator = { version = "=0.16.1", features = ["derive"] }
xid = "=1.1.1"
