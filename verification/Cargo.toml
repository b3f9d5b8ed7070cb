[package]
name = "rings"
version = "0.1.0"
edition = "2021"
publish = false

[dependencies]
penrose = "0.3"
tracing-subscriber = { version = "0.3", features = ["env-filter"] }
