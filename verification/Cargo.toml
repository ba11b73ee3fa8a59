[package]
name = "bragi"
version = "0.1.0"
edition = "2021"
publish = false

[dependencies]
blake3 = "*"
walkdir = "*"
sea-orm = { version = "*", features = ["sqlx-postgres", "runtime-tokio-rustls", "macros"] }
tokio = { version = "*", features = ["rt-multi-thread", "macros", "net", "fs"] }
axum = "*"
serde = { version = "*", features = ["derive"] }
dotenvy = "*"
tower-http = { version = "*", features = ["cors"] }
tokio-util = { version = "*", features = ["io"] }
