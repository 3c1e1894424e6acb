[package]
name = "speedreading_app_core"
version = "0.1.0"
edition = "2021"
publish = false

[dependencies]
anyhow = "1"
epub = "*"
flume = "*"
pdf-extract = "*"
rusqlite = { version = "*", features = ["bundled"] }
sha2 = "0.10"
tokio = { version = "1", features = ["rt-multi-thread", "time", "sync", "macros"] }
uniffi = "*"
