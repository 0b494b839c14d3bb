[package]
name = "event_log"
version = "0.1.0"
edition = "2021"
publish = false

[dependencies]
ic-cdk = "0.6"
ic-cdk-macros = "0.6"
serde = { version = "1", features = ["derive"] }
