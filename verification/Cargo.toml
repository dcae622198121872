[package]
name = "rpgsanta_2022"
version = "0.1.0"
edition = "2021"
publish = false

[dependencies]
bincode = "1.3"
tokio = { version = "1", features = ["macros", "rt", "rt-multi-thread", "sync", "time"] }
serenity = { version = "0.11", default-features = false, features = ["client", "gateway", "model", "rustls_backend"] }
