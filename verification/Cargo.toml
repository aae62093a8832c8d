[package]
name = "apollo-router"
version = "0.1.0"
edition = "2021"
publish = false

[dependencies]
async-trait = "0.1"
derivative = "2"
futures = "0.3"
tokio = { version = "1", features = ["macros", "rt", "rt-multi-thread", "sync"] }
tracing = "0.1"
tracing-futures = "0.2"
