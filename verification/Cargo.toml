[package]
name = "quickwit_logging"
version = "0.1.0"
edition = "2021"
publish = false

[dependencies]
tokio = { version = "*", features = ["sync", "rt", "macros", "rt-multi-thread"] }
reqwest = { version = "*", default-features = false }
url = "*"
tracing = "*"
tracing-core = "*"
tracing-subscriber = { version = "*", features = ["registry"] }

[dev-dependencies]
serde_json = "*"
